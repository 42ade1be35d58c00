//! The retry policy of the stream resolver and the reading of its answers.
//!
//! Both resolver calls (the availability query and the manifest fetch) run
//! under one policy: a 404 answer is terminal (reported as not-found where
//! the caller distinguishes it); 429 and every 5xx status are transient and
//! retried up to three more times, waiting 200 ms before the first retry and
//! doubling before each further one; any other non-2xx status, and a
//! transient status once the retries are spent, are terminal failures.
//! The surrounding process performs the requests and the waits; the
//! decision after each answer is taken here.

use crate::errors::DomainError;
use crate::errors::InfrastructureError;
use crate::model_name::recortar;
use crate::stream_url::StreamUrl;
use crate::stream_url::es_url_valida;
use vstd::prelude::*;

verus! {

pub open spec fn es_transitorio(status: u16) -> bool {
    status == 429 || (500 <= status <= 599)
}

pub open spec fn es_exito(status: u16) -> bool {
    200 <= status <= 299
}

/// What to do with one HTTP answer.
#[derive(Debug, Clone, Copy, PartialEq, Eq, Structural)]
pub enum DecisionRespuesta {
    /// A 2xx answer: use the body.
    Exito,
    /// A 404 answer where the caller distinguishes unknown identifiers.
    NoEncontrado,
    /// A transient status with retries left: wait this long, then ask again.
    Reintentar { espera_ms: u64 },
    /// A transient status once the retries are spent.
    FalloTransitorio,
    /// Any other status.
    FalloTerminal,
}

/// The retry policy: how many extra attempts, and the first wait.
#[derive(Debug, Clone, Copy, PartialEq, Eq, Structural)]
pub struct PoliticaReintentos {
    pub max_reintentos: usize,
    pub base_ms: u64,
}

/// How far into the retry budget one request sequence has come.
#[derive(Debug, Clone, Copy, PartialEq, Eq, Structural)]
pub struct EstadoReintentos {
    pub intento: usize,
    pub espera_ms: u64,
}

pub open spec fn duplicar_saturado(x: u64) -> u64 {
    if 2 * x > u64::MAX {
        u64::MAX
    } else {
        (2 * x) as u64
    }
}

/// The decision the policy takes on one answer.
pub open spec fn decision_de(
    p: PoliticaReintentos,
    e: EstadoReintentos,
    status: u16,
    distingue_no_encontrado: bool,
) -> DecisionRespuesta {
    if distingue_no_encontrado && status == 404 {
        DecisionRespuesta::NoEncontrado
    } else if es_transitorio(status) {
        if e.intento < p.max_reintentos {
            DecisionRespuesta::Reintentar { espera_ms: e.espera_ms }
        } else {
            DecisionRespuesta::FalloTransitorio
        }
    } else if es_exito(status) {
        DecisionRespuesta::Exito
    } else {
        DecisionRespuesta::FalloTerminal
    }
}

/// The retry state after that answer: it advances only on a retry.
pub open spec fn estado_tras(
    p: PoliticaReintentos,
    e: EstadoReintentos,
    status: u16,
    distingue_no_encontrado: bool,
) -> EstadoReintentos {
    if decision_de(p, e, status, distingue_no_encontrado) is Reintentar {
        EstadoReintentos {
            intento: (e.intento + 1) as usize,
            espera_ms: duplicar_saturado(e.espera_ms),
        }
    } else {
        e
    }
}

impl PoliticaReintentos {
    /// The policy both resolver calls use: three extra attempts from 200 ms.
    pub fn nueva() -> (r: PoliticaReintentos)
        ensures
            r.max_reintentos == 3,
            r.base_ms == 200,
    {
        PoliticaReintentos { max_reintentos: 3, base_ms: 200 }
    }

    /// The state before the first answer.
    pub fn inicial(&self) -> (r: EstadoReintentos)
        ensures
            r.intento == 0,
            r.espera_ms == self.base_ms,
    {
        EstadoReintentos { intento: 0, espera_ms: self.base_ms }
    }

    /// Decides on one HTTP answer and advances the retry state.
    pub fn decidir(
        &self,
        estado: EstadoReintentos,
        status: u16,
        distingue_no_encontrado: bool,
    ) -> (r: (DecisionRespuesta, EstadoReintentos))
        ensures
            r.0 == decision_de(*self, estado, status, distingue_no_encontrado),
            r.1 == estado_tras(*self, estado, status, distingue_no_encontrado),
    {
        if distingue_no_encontrado && status == 404 {
            return (DecisionRespuesta::NoEncontrado, estado);
        }
        if status == 429 || (500 <= status && status <= 599) {
            if estado.intento < self.max_reintentos {
                let doble: u64 = if estado.espera_ms > 0x7FFF_FFFF_FFFF_FFFF {
                    u64::MAX
                } else {
                    2 * estado.espera_ms
                };
                return (
                    DecisionRespuesta::Reintentar { espera_ms: estado.espera_ms },
                    EstadoReintentos { intento: estado.intento + 1, espera_ms: doble },
                );
            }
            return (DecisionRespuesta::FalloTransitorio, estado);
        }
        if 200 <= status && status <= 299 {
            return (DecisionRespuesta::Exito, estado);
        }
        (DecisionRespuesta::FalloTerminal, estado)
    }
}

pub open spec fn potencia2(n: nat) -> int
    decreases n,
{
    if n == 0 {
        1
    } else {
        2 * potencia2((n - 1) as nat)
    }
}

/// The backoff is exponential: while no saturation occurs, the wait before
/// retry `n` is the base wait doubled `n` times.
pub proof fn lemma_espera_exponencial(
    p: PoliticaReintentos,
    e: EstadoReintentos,
    status: u16,
    distingue_no_encontrado: bool,
)
    requires
        decision_de(p, e, status, distingue_no_encontrado) is Reintentar,
        e.espera_ms == p.base_ms * potencia2(e.intento as nat),
        2 * e.espera_ms <= u64::MAX,
    ensures
        estado_tras(p, e, status, distingue_no_encontrado).espera_ms == p.base_ms * potencia2(
            (e.intento + 1) as nat,
        ),
{
    assert(potencia2((e.intento + 1) as nat) == 2 * potencia2(e.intento as nat));
    assert(p.base_ms * (2 * potencia2(e.intento as nat)) == 2 * (p.base_ms * potencia2(
        e.intento as nat,
    ))) by (nonlinear_arith);
}

/// Reads a successful availability answer: a missing stream source means
/// the model is offline, an invalid one is a domain error.
pub fn interpretar_fuente(hls_source: Option<String>) -> (r: Result<
    Option<StreamUrl>,
    InfrastructureError,
>)
    ensures
        match r {
            Ok(o) => match o {
                Some(u) => hls_source matches Some(s) && es_url_valida(recortar(s@)) && u@
                    == recortar(s@) && u.bien_formada(),
                None => hls_source is None,
            },
            Err(e) => hls_source matches Some(s) && !es_url_valida(recortar(s@)) && e matches
                InfrastructureError::Domain(DomainError::InvalidStreamUrl(_)),
        },
{
    match hls_source {
        Some(s) => match StreamUrl::new(s.as_str()) {
            Ok(u) => Ok(Some(u)),
            Err(e) => Err(InfrastructureError::Domain(e)),
        },
        None => Ok(None),
    }
}

} // verus!
