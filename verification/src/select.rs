//! Choosing a quality variant for a requested tier.
//!
//! A tier names a target height (`"240p"`, `"480p"`, `"720p"`, `"1080p"`);
//! `"best"` and any unrecognized tier ask for the highest quality. With a
//! target height the rule is: among variants with a known height not above
//! the target, the greatest (height, bandwidth) pair wins; failing that,
//! among variants with a known height above the target, the least pair wins;
//! failing that (no variant has a height), the fallback applies. The
//! fallback takes the greatest (height, bandwidth) pair over variants with a
//! known height, else the greatest bandwidth over all. A missing height or
//! bandwidth compares as zero. On equal pairs, the maximum rules keep the
//! later variant and the minimum rule keeps the earlier one.

use crate::errors::DomainError;
use crate::errors::InfrastructureError;
use crate::manifest::VarianteStream;
use crate::manifest::VarianteVista;
use crate::model_name::recortar;
use crate::stream_url::StreamUrl;
use crate::stream_url::es_url_valida;
use vstd::prelude::*;
use vstd::string::StrSliceExecFns;

verus! {

pub open spec fn vistas(s: Seq<VarianteStream>) -> Seq<VarianteVista> {
    s.map_values(|v: VarianteStream| v@)
}

/// A missing height counts as zero.
pub open spec fn altura_de(v: VarianteVista) -> int {
    match v.height {
        Some(h) => h as int,
        None => 0,
    }
}

/// A missing bandwidth counts as zero.
pub open spec fn banda_de(v: VarianteVista) -> int {
    match v.bandwidth {
        Some(b) => b as int,
        None => 0,
    }
}

pub open spec fn par_le(a: (int, int), b: (int, int)) -> bool {
    a.0 < b.0 || (a.0 == b.0 && a.1 <= b.1)
}

pub open spec fn par_lt(a: (int, int), b: (int, int)) -> bool {
    a.0 < b.0 || (a.0 == b.0 && a.1 < b.1)
}

pub open spec fn clave_hb() -> spec_fn(VarianteVista) -> (int, int) {
    |v: VarianteVista| (altura_de(v), banda_de(v))
}

pub open spec fn clave_banda() -> spec_fn(VarianteVista) -> (int, int) {
    |v: VarianteVista| (banda_de(v), 0)
}

pub open spec fn filtro_bajo(h: u32) -> spec_fn(VarianteVista) -> bool {
    |v: VarianteVista| v.height is Some && altura_de(v) <= h
}

pub open spec fn filtro_alto(h: u32) -> spec_fn(VarianteVista) -> bool {
    |v: VarianteVista| v.height is Some && altura_de(v) > h
}

pub open spec fn filtro_con_altura() -> spec_fn(VarianteVista) -> bool {
    |v: VarianteVista| v.height is Some
}

pub open spec fn filtro_todo() -> spec_fn(VarianteVista) -> bool {
    |v: VarianteVista| true
}

/// The index of the greatest key among elements satisfying `p`; on equal
/// keys the later element wins.
pub open spec fn indice_maximo(
    vs: Seq<VarianteVista>,
    p: spec_fn(VarianteVista) -> bool,
    c: spec_fn(VarianteVista) -> (int, int),
) -> Option<int>
    decreases vs.len(),
{
    if vs.len() == 0 {
        None
    } else {
        let resto = indice_maximo(vs.drop_last(), p, c);
        let u = vs.len() - 1;
        if p(vs[u]) {
            match resto {
                None => Some(u as int),
                Some(i) => if par_le(c(vs[i]), c(vs[u])) {
                    Some(u as int)
                } else {
                    Some(i)
                },
            }
        } else {
            resto
        }
    }
}

/// The index of the least key among elements satisfying `p`; on equal keys
/// the earlier element wins.
pub open spec fn indice_minimo(
    vs: Seq<VarianteVista>,
    p: spec_fn(VarianteVista) -> bool,
    c: spec_fn(VarianteVista) -> (int, int),
) -> Option<int>
    decreases vs.len(),
{
    if vs.len() == 0 {
        None
    } else {
        let resto = indice_minimo(vs.drop_last(), p, c);
        let u = vs.len() - 1;
        if p(vs[u]) {
            match resto {
                None => Some(u as int),
                Some(i) => if par_lt(c(vs[u]), c(vs[i])) {
                    Some(u as int)
                } else {
                    Some(i)
                },
            }
        } else {
            resto
        }
    }
}

/// The target height a tier names, if it names one.
pub open spec fn objetivo_de(q: Seq<char>) -> Option<u32> {
    if q == "1080p"@ {
        Some(1080u32)
    } else if q == "720p"@ {
        Some(720u32)
    } else if q == "480p"@ {
        Some(480u32)
    } else if q == "240p"@ {
        Some(240u32)
    } else {
        None
    }
}

/// Highest quality: greatest (height, bandwidth) among variants with a
/// height, else greatest bandwidth over all.
pub open spec fn respaldo(vs: Seq<VarianteVista>) -> Option<int> {
    match indice_maximo(vs, filtro_con_altura(), clave_hb()) {
        Some(i) => Some(i),
        None => indice_maximo(vs, filtro_todo(), clave_banda()),
    }
}

/// The index of the variant the tier selects, if any variant exists.
pub open spec fn seleccion(vs: Seq<VarianteVista>, q: Seq<char>) -> Option<int> {
    match objetivo_de(q) {
        Some(h) => match indice_maximo(vs, filtro_bajo(h), clave_hb()) {
            Some(i) => Some(i),
            None => match indice_minimo(vs, filtro_alto(h), clave_hb()) {
                Some(i) => Some(i),
                None => respaldo(vs),
            },
        },
        None => respaldo(vs),
    }
}

/// What `indice_maximo` returns: a qualifying index whose key dominates
/// every qualifying key, or nothing exactly when nothing qualifies.
pub proof fn lemma_indice_maximo_props(
    vs: Seq<VarianteVista>,
    p: spec_fn(VarianteVista) -> bool,
    c: spec_fn(VarianteVista) -> (int, int),
)
    ensures
        match indice_maximo(vs, p, c) {
            Some(i) => 0 <= i < vs.len() && p(vs[i]) && (forall|j: int|
                0 <= j < vs.len() && p(#[trigger] vs[j]) ==> par_le(c(vs[j]), c(vs[i]))),
            None => forall|j: int| 0 <= j < vs.len() ==> !p(#[trigger] vs[j]),
        },
    decreases vs.len(),
{
    if vs.len() > 0 {
        lemma_indice_maximo_props(vs.drop_last(), p, c);
        assert forall|j: int| 0 <= j < vs.len() - 1 implies vs.drop_last()[j] == vs[j] by {}
    }
}

/// What `indice_minimo` returns, symmetrically.
pub proof fn lemma_indice_minimo_props(
    vs: Seq<VarianteVista>,
    p: spec_fn(VarianteVista) -> bool,
    c: spec_fn(VarianteVista) -> (int, int),
)
    ensures
        match indice_minimo(vs, p, c) {
            Some(i) => 0 <= i < vs.len() && p(vs[i]) && (forall|j: int|
                0 <= j < vs.len() && p(#[trigger] vs[j]) ==> par_le(c(vs[i]), c(vs[j]))),
            None => forall|j: int| 0 <= j < vs.len() ==> !p(#[trigger] vs[j]),
        },
    decreases vs.len(),
{
    if vs.len() > 0 {
        lemma_indice_minimo_props(vs.drop_last(), p, c);
        assert forall|j: int| 0 <= j < vs.len() - 1 implies vs.drop_last()[j] == vs[j] by {}
    }
}

/// Selection always finds a variant when any exists.
pub proof fn lemma_seleccion_existe(vs: Seq<VarianteVista>, q: Seq<char>)
    requires
        vs.len() > 0,
    ensures
        seleccion(vs, q) matches Some(i) && 0 <= i < vs.len(),
{
    lemma_indice_maximo_props(vs, filtro_con_altura(), clave_hb());
    lemma_indice_maximo_props(vs, filtro_todo(), clave_banda());
    match objetivo_de(q) {
        Some(h) => {
            lemma_indice_maximo_props(vs, filtro_bajo(h), clave_hb());
            lemma_indice_minimo_props(vs, filtro_alto(h), clave_hb());
        },
        None => {},
    }
}

/// A tier with a target height never jumps above it while some variant at
/// or below the target exists: the chosen variant is the greatest such.
pub proof fn lemma_seleccion_no_excede(vs: Seq<VarianteVista>, q: Seq<char>, h: u32)
    requires
        objetivo_de(q) == Some(h),
        exists|i: int| 0 <= i < vs.len() && (#[trigger] vs[i]).height is Some && altura_de(vs[i]) <= h,
    ensures
        seleccion(vs, q) matches Some(i) && vs[i].height is Some && altura_de(vs[i]) <= h
            && (forall|j: int|
            0 <= j < vs.len() && (#[trigger] vs[j]).height is Some && altura_de(vs[j]) <= h
                ==> par_le(
                (altura_de(vs[j]), banda_de(vs[j])),
                (altura_de(vs[i]), banda_de(vs[i])),
            )),
{
    lemma_indice_maximo_props(vs, filtro_bajo(h), clave_hb());
    let w = choose|i: int|
        0 <= i < vs.len() && (#[trigger] vs[i]).height is Some && altura_de(vs[i]) <= h;
    assert(filtro_bajo(h)(vs[w]));
}

/// With a target height and only variants above it, the chosen variant is
/// the least above the target.
pub proof fn lemma_seleccion_mas_cercana_arriba(vs: Seq<VarianteVista>, q: Seq<char>, h: u32)
    requires
        objetivo_de(q) == Some(h),
        forall|j: int|
            0 <= j < vs.len() && (#[trigger] vs[j]).height is Some ==> altura_de(vs[j]) > h,
        exists|i: int| 0 <= i < vs.len() && (#[trigger] vs[i]).height is Some,
    ensures
        seleccion(vs, q) matches Some(i) && vs[i].height is Some && altura_de(vs[i]) > h && (
        forall|j: int|
            0 <= j < vs.len() && (#[trigger] vs[j]).height is Some ==> par_le(
                (altura_de(vs[i]), banda_de(vs[i])),
                (altura_de(vs[j]), banda_de(vs[j])),
            )),
{
    lemma_indice_maximo_props(vs, filtro_bajo(h), clave_hb());
    lemma_indice_minimo_props(vs, filtro_alto(h), clave_hb());
    let w = choose|i: int| 0 <= i < vs.len() && (#[trigger] vs[i]).height is Some;
    assert(filtro_alto(h)(vs[w]));
}

/// `"best"`, and any tier without a target height, picks the greatest
/// (height, bandwidth) pair among the variants with a known height.
pub proof fn lemma_mejor_escoge_maxima(vs: Seq<VarianteVista>, q: Seq<char>)
    requires
        objetivo_de(q) is None,
        exists|i: int| 0 <= i < vs.len() && (#[trigger] vs[i]).height is Some,
    ensures
        seleccion(vs, q) matches Some(i) && vs[i].height is Some && (forall|j: int|
            0 <= j < vs.len() && (#[trigger] vs[j]).height is Some ==> par_le(
                (altura_de(vs[j]), banda_de(vs[j])),
                (altura_de(vs[i]), banda_de(vs[i])),
            )),
{
    lemma_indice_maximo_props(vs, filtro_con_altura(), clave_hb());
    let w = choose|i: int| 0 <= i < vs.len() && (#[trigger] vs[i]).height is Some;
    assert(filtro_con_altura()(vs[w]));
}

fn textos_iguales(a: &str, b: &str) -> (r: bool)
    ensures
        r == (a@ == b@),
{
    let la = a.unicode_len();
    let lb = b.unicode_len();
    if la != lb {
        return false;
    }
    let mut k: usize = 0;
    while k < la
        invariant
            0 <= k <= la,
            la == a@.len() && la == b@.len(),
            forall|t: int| 0 <= t < k ==> a@[t] == b@[t],
        decreases la - k,
    {
        if a.get_char(k) != b.get_char(k) {
            return false;
        }
        k += 1;
    }
    proof {
        assert(a@ =~= b@);
    }
    true
}

fn objetivo_exec(quality: &str) -> (r: Option<u32>)
    ensures
        r == objetivo_de(quality@),
{
    if textos_iguales(quality, "1080p") {
        Some(1080)
    } else if textos_iguales(quality, "720p") {
        Some(720)
    } else if textos_iguales(quality, "480p") {
        Some(480)
    } else if textos_iguales(quality, "240p") {
        Some(240)
    } else {
        None
    }
}

fn altura_exec(v: &VarianteStream) -> (r: u32)
    ensures
        r as int == altura_de(v@),
{
    match v.height {
        Some(h) => h,
        None => 0,
    }
}

fn banda_exec(v: &VarianteStream) -> (r: u64)
    ensures
        r as int == banda_de(v@),
{
    match v.bandwidth {
        Some(b) => b,
        None => 0,
    }
}

pub open spec fn opcion_int(r: Option<usize>) -> Option<int> {
    match r {
        Some(u) => Some(u as int),
        None => None,
    }
}

fn mejor_max(variantes: &Vec<VarianteStream>, limite: Option<u32>) -> (r: Option<usize>)
    ensures
        opcion_int(r) == indice_maximo(
            vistas(variantes@),
            match limite {
                Some(h) => filtro_bajo(h),
                None => filtro_con_altura(),
            },
            clave_hb(),
        ),
        r matches Some(i) ==> i < variantes@.len(),
{
    let ghost vs = vistas(variantes@);
    let ghost p = match limite {
        Some(h) => filtro_bajo(h),
        None => filtro_con_altura(),
    };
    let mut mejor: Option<usize> = None;
    let mut k: usize = 0;
    while k < variantes.len()
        invariant
            0 <= k <= variantes@.len(),
            vs == vistas(variantes@),
            p == (match limite {
                Some(h) => filtro_bajo(h),
                None => filtro_con_altura(),
            }),
            opcion_int(mejor) == indice_maximo(vs.take(k as int), p, clave_hb()),
            mejor matches Some(i) ==> i < k,
        decreases variantes@.len() - k,
    {
        proof {
            assert(vs.take(k + 1).drop_last() =~= vs.take(k as int));
            assert(vs.take(k + 1).last() == vs[k as int]);
            assert(vs[k as int] == variantes@[k as int]@);
        }
        let cumple = match limite {
            Some(h) => match variantes[k].height {
                Some(a) => a <= h,
                None => false,
            },
            None => variantes[k].height.is_some(),
        };
        if cumple {
            match mejor {
                None => {
                    mejor = Some(k);
                },
                Some(b) => {
                    let ab = altura_exec(&variantes[b]);
                    let bb = banda_exec(&variantes[b]);
                    let ak = altura_exec(&variantes[k]);
                    let bk = banda_exec(&variantes[k]);
                    proof {
                        assert(vs[b as int] == variantes@[b as int]@);
                    }
                    if ab < ak || (ab == ak && bb <= bk) {
                        mejor = Some(k);
                    }
                },
            }
        }
        k += 1;
    }
    proof {
        assert(vs.take(variantes@.len() as int) =~= vs);
    }
    mejor
}

fn menor_estricto(variantes: &Vec<VarianteStream>, limite: u32) -> (r: Option<usize>)
    ensures
        opcion_int(r) == indice_minimo(vistas(variantes@), filtro_alto(limite), clave_hb()),
        r matches Some(i) ==> i < variantes@.len(),
{
    let ghost vs = vistas(variantes@);
    let mut mejor: Option<usize> = None;
    let mut k: usize = 0;
    while k < variantes.len()
        invariant
            0 <= k <= variantes@.len(),
            vs == vistas(variantes@),
            opcion_int(mejor) == indice_minimo(vs.take(k as int), filtro_alto(limite), clave_hb()),
            mejor matches Some(i) ==> i < k,
        decreases variantes@.len() - k,
    {
        proof {
            assert(vs.take(k + 1).drop_last() =~= vs.take(k as int));
            assert(vs.take(k + 1).last() == vs[k as int]);
            assert(vs[k as int] == variantes@[k as int]@);
        }
        let cumple = match variantes[k].height {
            Some(a) => a > limite,
            None => false,
        };
        if cumple {
            match mejor {
                None => {
                    mejor = Some(k);
                },
                Some(b) => {
                    let ab = altura_exec(&variantes[b]);
                    let bb = banda_exec(&variantes[b]);
                    let ak = altura_exec(&variantes[k]);
                    let bk = banda_exec(&variantes[k]);
                    proof {
                        assert(vs[b as int] == variantes@[b as int]@);
                    }
                    if ak < ab || (ak == ab && bk < bb) {
                        mejor = Some(k);
                    }
                },
            }
        }
        k += 1;
    }
    proof {
        assert(vs.take(variantes@.len() as int) =~= vs);
    }
    mejor
}

fn mejor_por_banda(variantes: &Vec<VarianteStream>) -> (r: Option<usize>)
    ensures
        opcion_int(r) == indice_maximo(vistas(variantes@), filtro_todo(), clave_banda()),
        r matches Some(i) ==> i < variantes@.len(),
{
    let ghost vs = vistas(variantes@);
    let mut mejor: Option<usize> = None;
    let mut k: usize = 0;
    while k < variantes.len()
        invariant
            0 <= k <= variantes@.len(),
            vs == vistas(variantes@),
            opcion_int(mejor) == indice_maximo(vs.take(k as int), filtro_todo(), clave_banda()),
            mejor matches Some(i) ==> i < k,
        decreases variantes@.len() - k,
    {
        proof {
            assert(vs.take(k + 1).drop_last() =~= vs.take(k as int));
            assert(vs.take(k + 1).last() == vs[k as int]);
            assert(vs[k as int] == variantes@[k as int]@);
        }
        match mejor {
            None => {
                mejor = Some(k);
            },
            Some(b) => {
                let bb = banda_exec(&variantes[b]);
                let bk = banda_exec(&variantes[k]);
                proof {
                    assert(vs[b as int] == variantes@[b as int]@);
                }
                if bb <= bk {
                    mejor = Some(k);
                }
            },
        }
        k += 1;
    }
    proof {
        assert(vs.take(variantes@.len() as int) =~= vs);
    }
    mejor
}

fn respaldo_exec(variantes: &Vec<VarianteStream>) -> (r: Option<usize>)
    ensures
        opcion_int(r) == respaldo(vistas(variantes@)),
        r matches Some(i) ==> i < variantes@.len(),
{
    match mejor_max(variantes, None) {
        Some(i) => Some(i),
        None => mejor_por_banda(variantes),
    }
}

/// Picks the variant the tier selects, or nothing when there are none.
pub fn seleccionar_variante<'a>(variantes: &'a Vec<VarianteStream>, quality: &str) -> (r: Option<
    &'a VarianteStream,
>)
    ensures
        match r {
            Some(v) => seleccion(vistas(variantes@), quality@) matches Some(i) && 0 <= i
                < variantes@.len() && *v == variantes@[i],
            None => seleccion(vistas(variantes@), quality@) is None,
        },
{
    let objetivo = objetivo_exec(quality);
    let idx: Option<usize> = match objetivo {
        Some(h) => match mejor_max(variantes, Some(h)) {
            Some(i) => Some(i),
            None => match menor_estricto(variantes, h) {
                Some(i) => Some(i),
                None => respaldo_exec(variantes),
            },
        },
        None => respaldo_exec(variantes),
    };
    match idx {
        Some(i) => Some(&variantes[i]),
        None => None,
    }
}

/// What joining a (possibly relative) reference against an absolute base
/// yields under the standard URL-join rules, in serialized form.
pub uninterp spec fn union_url(base: Seq<char>, rel: Seq<char>) -> Seq<char>;

/// Whether that URL join is defined: the base parses as an absolute URL and
/// the reference resolves against it. A function of the two texts alone.
pub uninterp spec fn union_definida(base: Seq<char>, rel: Seq<char>) -> bool;

/// Relies on `reqwest::Url::parse` and `reqwest::Url::join`: resolving a
/// reference against an absolute base by the standard URL-join rules;
/// whether the join is defined and what it serializes to depend on the two
/// texts alone.
#[verifier::external_body]
fn unir_url(base: &str, rel: &str) -> (r: Option<String>)
    ensures
        (r is Some) == union_definida(base@, rel@),
        r matches Some(s) ==> s@ == union_url(base@, rel@),
{
    match reqwest::Url::parse(base) {
        Ok(b) => match b.join(rel) {
            Ok(u) => Some(u.as_str().to_owned()),
            Err(_) => None,
        },
        Err(_) => None,
    }
}

/// Resolves the tier's variant against the manifest's source URL: with no
/// variants the source endpoint itself is kept; otherwise the selected
/// variant's address is joined against it and validated. It fails with an
/// external-service error exactly when that join is undefined, and with a
/// domain error exactly when the joined URL does not validate.
pub fn resolver_variant_url(
    master_url: &StreamUrl,
    variantes: &Vec<VarianteStream>,
    quality: &str,
) -> (r: Result<StreamUrl, InfrastructureError>)
    ensures
        match r {
            Ok(u) => (variantes@.len() == 0 && u@ == master_url@) || (variantes@.len() > 0 && (
            seleccion(vistas(variantes@), quality@) matches Some(i) && union_definida(
                master_url@,
                variantes@[i].url@,
            ) && u@ == recortar(union_url(master_url@, variantes@[i].url@)) && es_url_valida(
                u@,
            ))),
            Err(e) => variantes@.len() > 0 && (seleccion(vistas(variantes@), quality@) matches
                Some(i) && match e {
                InfrastructureError::ExternalService(_) => !union_definida(
                    master_url@,
                    variantes@[i].url@,
                ),
                InfrastructureError::Domain(de) => de matches DomainError::InvalidStreamUrl(_)
                    && union_definida(master_url@, variantes@[i].url@) && !es_url_valida(
                    recortar(union_url(master_url@, variantes@[i].url@)),
                ),
                _ => false,
            }),
        },
{
    if variantes.len() == 0 {
        return Ok(master_url.duplicar());
    }
    let seleccionado = match seleccionar_variante(variantes, quality) {
        Some(v) => v,
        None => {
            proof {
                lemma_seleccion_existe(vistas(variantes@), quality@);
                assert(false);
            }
            return Err(
                InfrastructureError::ExternalService(
                    "No se pudo seleccionar variante de calidad".to_owned(),
                ),
            );
        },
    };
    let unido = match unir_url(master_url.as_str(), seleccionado.url.as_str()) {
        Some(s) => s,
        None => {
            return Err(InfrastructureError::ExternalService("Invalid URL".to_owned()));
        },
    };
    match StreamUrl::new(unido.as_str()) {
        Ok(u) => Ok(u),
        Err(e) => Err(InfrastructureError::Domain(e)),
    }
}

/// A failed variant resolution is non-fatal: the recording falls back to
/// the unresolved master endpoint; a successful one is used as it is.
pub fn url_a_grabar(
    master_url: &StreamUrl,
    resolucion: Result<StreamUrl, InfrastructureError>,
) -> (r: StreamUrl)
    ensures
        match resolucion {
            Ok(u) => r == u,
            Err(_) => r@ == master_url@,
        },
{
    match resolucion {
        Ok(u) => u,
        Err(_) => master_url.duplicar(),
    }
}

} // verus!
