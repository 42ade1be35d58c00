//! Decisions of the bounded worker pool.
//!
//! The pool pushes the deduplicated jobs into a bounded queue, spawns a
//! fixed number of workers that drain it under a shared cancellation flag,
//! and aggregates the per-worker failure lists once every worker has exited.
//! The queue, the tasks and the flag live in the surrounding process; the
//! rules they follow — the queue capacity, the two cancellation checks
//! around a dequeue, what each job's events amount to, and how worker
//! results aggregate — are decided here.

use crate::errors::InfrastructureError;
use crate::stream_url::StreamUrl;
use vstd::prelude::*;

verus! {

/// The soft concurrency limit; asking for more is honored with a warning.
pub const LIMITE_CONCURRENCIA_DEFECTO: usize = 3;

/// A concurrency bound must be at least one worker.
pub fn concurrencia_valida(limite: usize) -> (r: bool)
    ensures
        r == (limite >= 1),
{
    limite >= 1
}

/// Whether the requested concurrency deserves a warning.
pub fn advertir_concurrencia(limite: usize) -> (r: bool)
    ensures
        r == (limite > LIMITE_CONCURRENCIA_DEFECTO),
{
    limite > LIMITE_CONCURRENCIA_DEFECTO
}

/// Whether the job count over the concurrency bound deserves a warning.
pub fn advertir_sobre_limite(total: usize, limite: usize) -> (r: bool)
    ensures
        r == (total > limite),
{
    total > limite
}

/// Per-job progress is reported in detail only for a single job.
pub fn modo_detallado(total: usize) -> (r: bool)
    ensures
        r == (total <= 1),
{
    total <= 1
}

/// The job queue holds twice the concurrency bound, and never less than one.
pub fn capacidad_cola(limite: usize) -> (r: usize)
    ensures
        r == if limite == 0 {
            1int
        } else if 2 * limite <= usize::MAX {
            2 * limite
        } else {
            usize::MAX as int
        },
{
    if limite == 0 {
        1
    } else if limite > usize::MAX / 2 {
        usize::MAX
    } else {
        2 * limite
    }
}

/// One worker's step around the queue.
#[derive(Debug, Clone, Copy, PartialEq, Eq, Structural)]
pub enum PasoTrabajador {
    /// Stop: cancellation was set before dequeuing, or the queue is closed.
    Terminar,
    /// A job was dequeued but cancellation was set meanwhile: the job is
    /// abandoned, never started, and belongs to no result list.
    AbandonarTrabajo,
    /// Run the dequeued job.
    ProcesarTrabajo,
}

/// The two cancellation checks around a dequeue: one before asking the
/// queue, one immediately after a successful dequeue.
pub fn decidir_paso(cancelado_antes: bool, hay_trabajo: bool, cancelado_despues: bool) -> (r:
    PasoTrabajador)
    ensures
        r == if cancelado_antes || !hay_trabajo {
            PasoTrabajador::Terminar
        } else if cancelado_despues {
            PasoTrabajador::AbandonarTrabajo
        } else {
            PasoTrabajador::ProcesarTrabajo
        },
{
    if cancelado_antes || !hay_trabajo {
        PasoTrabajador::Terminar
    } else if cancelado_despues {
        PasoTrabajador::AbandonarTrabajo
    } else {
        PasoTrabajador::ProcesarTrabajo
    }
}

/// What the resolution step decided for one job.
#[derive(Debug, Clone, Copy, PartialEq, Eq, Structural)]
pub enum TrasResolucion {
    Grabar,
    TerminarOffline,
    TerminarFallo,
}

/// After resolving availability: record when online, skip cleanly when
/// offline, fail the job on a resolver error.
pub fn tras_resolucion(resultado: &Result<Option<StreamUrl>, InfrastructureError>) -> (r:
    TrasResolucion)
    ensures
        r == match resultado {
            Ok(o) => if o is Some {
                TrasResolucion::Grabar
            } else {
                TrasResolucion::TerminarOffline
            },
            Err(_) => TrasResolucion::TerminarFallo,
        },
{
    match resultado {
        Ok(o) => if o.is_some() {
            TrasResolucion::Grabar
        } else {
            TrasResolucion::TerminarOffline
        },
        Err(_) => TrasResolucion::TerminarFallo,
    }
}

/// What the recording step decided for one job.
#[derive(Debug, Clone, Copy, PartialEq, Eq, Structural)]
pub enum TrasGrabacion {
    ValidarSalida,
    TerminarCancelado,
    TerminarFallo,
}

/// After the recording returns: validate the output on success, report a
/// clean cancellation apart, fail the job on anything else.
pub fn tras_grabacion(resultado: &Result<(), InfrastructureError>) -> (r: TrasGrabacion)
    ensures
        r == match resultado {
            Ok(_) => TrasGrabacion::ValidarSalida,
            Err(e) => if e is RecordingCancelled {
                TrasGrabacion::TerminarCancelado
            } else {
                TrasGrabacion::TerminarFallo
            },
        },
{
    match resultado {
        Ok(_) => TrasGrabacion::ValidarSalida,
        Err(e) => if matches!(e, InfrastructureError::RecordingCancelled) {
            TrasGrabacion::TerminarCancelado
        } else {
            TrasGrabacion::TerminarFallo
        },
    }
}

/// A job's terminal state. Only `Fallido` counts against the run.
#[derive(Debug, Clone, Copy, PartialEq, Eq, Structural)]
pub enum EstadoFinal {
    Exito,
    OmitidoOffline,
    OmitidoPequeno,
    Cancelado,
    Fallido,
}

pub open spec fn cuenta_como_fallo(e: EstadoFinal) -> bool {
    e is Fallido
}

/// Offline, too-small, and cancelled jobs are excluded from the failures.
pub fn estado_es_fallo(e: &EstadoFinal) -> (r: bool)
    ensures
        r == cuenta_como_fallo(*e),
{
    matches!(e, EstadoFinal::Fallido)
}

/// How one worker task ended: with its failure list, or aborted.
#[derive(Debug)]
pub enum ResultadoTarea {
    Terminada(Vec<String>),
    Abortada,
}

/// The aggregate of one run: the failed jobs and the aborted worker count.
#[derive(Debug)]
pub struct PoolResult {
    pub fallidos: Vec<String>,
    pub abortadas: usize,
}

/// The failure entries the task results amount to, in task order: each
/// finished task contributes its list, each aborted one a synthetic entry.
pub open spec fn fallos_de(rs: Seq<ResultadoTarea>) -> Seq<Seq<char>>
    decreases rs.len(),
{
    if rs.len() == 0 {
        Seq::empty()
    } else {
        (match rs[0] {
            ResultadoTarea::Terminada(v) => v@.map_values(|s: String| s@),
            ResultadoTarea::Abortada => seq!["tarea"@],
        }) + fallos_de(rs.drop_first())
    }
}

pub open spec fn abortadas_de(rs: Seq<ResultadoTarea>) -> int
    decreases rs.len(),
{
    if rs.len() == 0 {
        0
    } else {
        (if rs[0] is Abortada {
            1int
        } else {
            0int
        }) + abortadas_de(rs.drop_first())
    }
}

/// Collects every worker's outcome into the run's aggregate.
pub fn agregar_resultados(resultados: Vec<ResultadoTarea>) -> (r: PoolResult)
    ensures
        r.fallidos@.map_values(|s: String| s@) == fallos_de(resultados@),
        r.abortadas == abortadas_de(resultados@),
        abortadas_de(resultados@) <= resultados@.len(),
{
    let ghost originales = resultados@;
    let mut pendientes = resultados;
    let cuantos = pendientes.len();
    proof {
        assert(originales.len() == cuantos <= usize::MAX);
    }
    let mut fallidos: Vec<String> = Vec::new();
    let mut abortadas: usize = 0;
    proof {
        lemma_abortadas_no_negativo(pendientes@);
        assert(fallidos@.map_values(|s: String| s@) + fallos_de(pendientes@) =~= fallos_de(
            pendientes@,
        ));
    }
    while pendientes.len() > 0
        invariant
            fallidos@.map_values(|s: String| s@) + fallos_de(pendientes@) == fallos_de(
                originales,
            ),
            abortadas + abortadas_de(pendientes@) == abortadas_de(originales),
            abortadas_de(pendientes@) >= 0,
            abortadas + pendientes@.len() <= originales.len(),
            abortadas_de(originales) <= originales.len(),
            originales.len() <= usize::MAX,
        decreases pendientes@.len(),
    {
        let ghost antes = pendientes@;
        let primero = pendientes.remove(0);
        proof {
            assert(pendientes@ =~= antes.drop_first());
            lemma_abortadas_no_negativo(pendientes@);
        }
        match primero {
            ResultadoTarea::Terminada(mut v) => {
                let ghost v_antes = v@;
                let ghost f_antes = fallidos@;
                fallidos.append(&mut v);
                proof {
                    assert(fallidos@.map_values(|s: String| s@) =~= f_antes.map_values(
                        |s: String| s@,
                    ) + v_antes.map_values(|s: String| s@));
                    assert(f_antes.map_values(|s: String| s@) + (v_antes.map_values(
                        |s: String| s@,
                    ) + fallos_de(pendientes@)) =~= fallidos@.map_values(|s: String| s@)
                        + fallos_de(pendientes@));
                }
            },
            ResultadoTarea::Abortada => {
                let ghost f_antes = fallidos@;
                fallidos.push("tarea".to_owned());
                abortadas += 1;
                proof {
                    assert(fallidos@.map_values(|s: String| s@) =~= f_antes.map_values(
                        |s: String| s@,
                    ) + seq!["tarea"@]);
                    assert(f_antes.map_values(|s: String| s@) + (seq!["tarea"@] + fallos_de(
                        pendientes@,
                    )) =~= fallidos@.map_values(|s: String| s@) + fallos_de(pendientes@));
                }
            },
        }
    }
    proof {
        assert(fallos_de(pendientes@) =~= Seq::<Seq<char>>::empty());
        assert(fallidos@.map_values(|s: String| s@) + Seq::<Seq<char>>::empty()
            =~= fallidos@.map_values(|s: String| s@));
    }
    PoolResult { fallidos, abortadas }
}

proof fn lemma_abortadas_no_negativo(rs: Seq<ResultadoTarea>)
    ensures
        0 <= abortadas_de(rs) <= rs.len(),
    decreases rs.len(),
{
    if rs.len() > 0 {
        lemma_abortadas_no_negativo(rs.drop_first());
    }
}

/// A run fails exactly when its failure list is nonempty.
pub fn resumen_es_fallo(r: &PoolResult) -> (b: bool)
    ensures
        b == (r.fallidos@.len() > 0),
{
    r.fallidos.len() > 0
}

/// One job's end as its worker saw it: the model and whether it failed.
pub ghost struct TrabajoResuelto {
    pub modelo: Seq<char>,
    pub fallo: bool,
}

/// The failed models among a sequence of resolved jobs, in order: what one
/// worker's failure list holds after processing those jobs.
pub open spec fn fallos_trabajos(ts: Seq<TrabajoResuelto>) -> Seq<Seq<char>>
    decreases ts.len(),
{
    if ts.len() == 0 {
        Seq::empty()
    } else {
        (if ts[0].fallo {
            seq![ts[0].modelo]
        } else {
            Seq::<Seq<char>>::empty()
        }) + fallos_trabajos(ts.drop_first())
    }
}

/// The jobs of a run, worker by worker.
pub open spec fn aplanar(reparto: Seq<Seq<TrabajoResuelto>>) -> Seq<TrabajoResuelto>
    decreases reparto.len(),
{
    if reparto.len() == 0 {
        Seq::empty()
    } else {
        reparto[0] + aplanar(reparto.drop_first())
    }
}

/// The workers' failure lists, concatenated in worker order.
pub open spec fn fallos_del_reparto(reparto: Seq<Seq<TrabajoResuelto>>) -> Seq<Seq<char>>
    decreases reparto.len(),
{
    if reparto.len() == 0 {
        Seq::empty()
    } else {
        fallos_trabajos(reparto[0]) + fallos_del_reparto(reparto.drop_first())
    }
}

proof fn lemma_fallos_concat(a: Seq<TrabajoResuelto>, b: Seq<TrabajoResuelto>)
    ensures
        fallos_trabajos(a + b) == fallos_trabajos(a) + fallos_trabajos(b),
    decreases a.len(),
{
    if a.len() == 0 {
        assert(a + b =~= b);
        assert(fallos_trabajos(a) + fallos_trabajos(b) =~= fallos_trabajos(b));
    } else {
        assert((a + b).drop_first() =~= a.drop_first() + b);
        assert((a + b)[0] == a[0]);
        lemma_fallos_concat(a.drop_first(), b);
        assert(fallos_trabajos(a + b) =~= fallos_trabajos(a) + fallos_trabajos(b));
    }
}

proof fn lemma_fallos_permutacion(a: Seq<TrabajoResuelto>, b: Seq<TrabajoResuelto>)
    requires
        a.to_multiset() == b.to_multiset(),
    ensures
        fallos_trabajos(a).to_multiset() == fallos_trabajos(b).to_multiset(),
    decreases a.len(),
{
    broadcast use vstd::seq_lib::group_to_multiset_ensures;
    broadcast use vstd::multiset::group_multiset_axioms;

    if a.len() == 0 {
        assert(a.to_multiset().len() == a.len());
        assert(b.to_multiset().len() == b.len());
        assert(a =~= b);
    } else {
        let x = a.last();
        assert(a.contains(x));
        assert(b.to_multiset().count(x) > 0);
        assert(b.contains(x));
        let i = choose|i: int| 0 <= i < b.len() && b[i] == x;
        assert(a.drop_last() =~= a.remove(a.len() - 1));
        assert(a.remove(a.len() - 1).to_multiset() == a.to_multiset().remove(x));
        assert(b.remove(i).to_multiset() == b.to_multiset().remove(x));
        lemma_fallos_permutacion(a.drop_last(), b.remove(i));
        let aporte = fallos_trabajos(seq![x]);
        assert(a =~= a.drop_last() + seq![x]);
        lemma_fallos_concat(a.drop_last(), seq![x]);
        vstd::seq_lib::lemma_multiset_commutative(fallos_trabajos(a.drop_last()), aporte);
        let p = b.take(i);
        let q = b.skip(i + 1);
        assert(b =~= p + (seq![x] + q));
        assert(b.remove(i) =~= p + q);
        lemma_fallos_concat(p, seq![x] + q);
        lemma_fallos_concat(seq![x], q);
        lemma_fallos_concat(p, q);
        vstd::seq_lib::lemma_multiset_commutative(fallos_trabajos(p), aporte + fallos_trabajos(q));
        vstd::seq_lib::lemma_multiset_commutative(aporte, fallos_trabajos(q));
        vstd::seq_lib::lemma_multiset_commutative(fallos_trabajos(p), fallos_trabajos(q));
        assert(fallos_trabajos(a).to_multiset() =~= fallos_trabajos(b).to_multiset());
    }
}

proof fn lemma_fallos_del_reparto_aplanado(reparto: Seq<Seq<TrabajoResuelto>>)
    ensures
        fallos_del_reparto(reparto) == fallos_trabajos(aplanar(reparto)),
    decreases reparto.len(),
{
    if reparto.len() > 0 {
        lemma_fallos_del_reparto_aplanado(reparto.drop_first());
        lemma_fallos_concat(reparto[0], aplanar(reparto.drop_first()));
    }
}

/// How the jobs are distributed among the workers does not change the
/// failure-set composition: whenever the workers of two runs, together,
/// process the same jobs with the same per-job ends — in whatever split,
/// order or interleaving — the concatenations of their failure lists carry
/// the same multiset of failed models.
pub proof fn lemma_fallos_independientes_del_reparto(
    reparto_a: Seq<Seq<TrabajoResuelto>>,
    reparto_b: Seq<Seq<TrabajoResuelto>>,
)
    requires
        aplanar(reparto_a).to_multiset() == aplanar(reparto_b).to_multiset(),
    ensures
        fallos_del_reparto(reparto_a).to_multiset() == fallos_del_reparto(reparto_b).to_multiset(),
{
    lemma_fallos_del_reparto_aplanado(reparto_a);
    lemma_fallos_del_reparto_aplanado(reparto_b);
    lemma_fallos_permutacion(aplanar(reparto_a), aplanar(reparto_b));
}

} // verus!
