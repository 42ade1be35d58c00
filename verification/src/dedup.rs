//! Case-insensitive deduplication of requested model identifiers.
//!
//! Each raw identifier is compared under its normal form (trimmed and
//! lowercased); the first occurrence is kept in order and later ones are
//! counted as duplicates. Identifiers whose normal form is empty are never
//! treated as duplicates of one another.

use crate::model_name::normalizar;
use crate::model_name::normalizar_texto;
use vstd::prelude::*;

verus! {

/// Whether a model is kept given the ones before it: an empty normal form is
/// always kept; otherwise the normal form must not have appeared before.
pub open spec fn mantener(anteriores: Seq<Seq<char>>, m: Seq<char>) -> bool {
    normalizar(m).len() == 0 || (forall|j: int|
        0 <= j < anteriores.len() ==> normalizar(anteriores[j]) != normalizar(m))
}

/// The kept models: first occurrences under the normal form, in input order.
pub open spec fn seleccion_unicos(ms: Seq<Seq<char>>) -> Seq<Seq<char>>
    decreases ms.len(),
{
    if ms.len() == 0 {
        Seq::empty()
    } else {
        let resto = seleccion_unicos(ms.drop_last());
        if mantener(ms.drop_last(), ms.last()) {
            resto.push(ms.last())
        } else {
            resto
        }
    }
}

/// Every kept model occurs in the input.
proof fn lemma_unicos_son_del_origen(ms: Seq<Seq<char>>)
    ensures
        forall|k: int|
            0 <= k < seleccion_unicos(ms).len() ==> (exists|t: int|
                0 <= t < ms.len() && ms[t] == #[trigger] seleccion_unicos(ms)[k]),
    decreases ms.len(),
{
    if ms.len() > 0 {
        lemma_unicos_son_del_origen(ms.drop_last());
        assert forall|k: int| 0 <= k < seleccion_unicos(ms).len() implies (exists|t: int|
            0 <= t < ms.len() && ms[t] == #[trigger] seleccion_unicos(ms)[k]) by {
            let previos = seleccion_unicos(ms.drop_last());
            if k < previos.len() {
                let t = choose|t: int|
                    0 <= t < ms.drop_last().len() && ms.drop_last()[t] == previos[k];
                assert(ms[t] == seleccion_unicos(ms)[k]);
            } else {
                assert(ms[ms.len() - 1] == seleccion_unicos(ms)[k]);
            }
        }
    }
}

/// Among the kept models, a nonempty normal form never repeats.
proof fn lemma_unicos_distintos(ms: Seq<Seq<char>>)
    ensures
        forall|i: int, j: int|
            0 <= i < j < seleccion_unicos(ms).len() ==> (normalizar(
                #[trigger] seleccion_unicos(ms)[j],
            ).len() == 0 || normalizar(#[trigger] seleccion_unicos(ms)[i]) != normalizar(
                seleccion_unicos(ms)[j],
            )),
    decreases ms.len(),
{
    if ms.len() > 0 {
        lemma_unicos_distintos(ms.drop_last());
        lemma_unicos_son_del_origen(ms.drop_last());
        let previos = seleccion_unicos(ms.drop_last());
        assert forall|i: int, j: int|
            0 <= i < j < seleccion_unicos(ms).len() implies (normalizar(
            #[trigger] seleccion_unicos(ms)[j],
        ).len() == 0 || normalizar(#[trigger] seleccion_unicos(ms)[i]) != normalizar(
            seleccion_unicos(ms)[j],
        )) by {
            if j < previos.len() {
                assert(seleccion_unicos(ms)[i] == previos[i]);
                assert(seleccion_unicos(ms)[j] == previos[j]);
            } else if j == previos.len() && mantener(ms.drop_last(), ms.last()) {
                if normalizar(ms.last()).len() > 0 {
                    let t = choose|t: int|
                        0 <= t < ms.drop_last().len() && ms.drop_last()[t] == previos[i];
                    assert(normalizar(ms.drop_last()[t]) != normalizar(ms.last()));
                }
            }
        }
    }
}

/// A list whose nonempty normal forms never repeat is kept whole.
proof fn lemma_sin_repetidos_se_mantiene(u: Seq<Seq<char>>)
    requires
        forall|i: int, j: int|
            0 <= i < j < u.len() ==> (normalizar(#[trigger] u[j]).len() == 0 || normalizar(
                #[trigger] u[i],
            ) != normalizar(u[j])),
    ensures
        seleccion_unicos(u) == u,
    decreases u.len(),
{
    if u.len() > 0 {
        assert forall|i: int, j: int|
            0 <= i < j < u.drop_last().len() implies (normalizar(
            #[trigger] u.drop_last()[j],
        ).len() == 0 || normalizar(#[trigger] u.drop_last()[i]) != normalizar(
            u.drop_last()[j],
        )) by {
            assert(u.drop_last()[i] == u[i] && u.drop_last()[j] == u[j]);
        }
        lemma_sin_repetidos_se_mantiene(u.drop_last());
        assert(mantener(u.drop_last(), u.last()));
        assert(seleccion_unicos(u) =~= u);
    }
}

/// Deduplicating an already-deduplicated list changes nothing.
pub proof fn lemma_dedup_idempotente(ms: Seq<Seq<char>>)
    ensures
        seleccion_unicos(seleccion_unicos(ms)) == seleccion_unicos(ms),
{
    lemma_unicos_distintos(ms);
    lemma_sin_repetidos_se_mantiene(seleccion_unicos(ms));
}

fn contiene(claves: &Vec<String>, clave: &String) -> (r: bool)
    ensures
        r == (exists|t: int| 0 <= t < claves@.len() && (#[trigger] claves@[t])@ == clave@),
{
    let mut t: usize = 0;
    while t < claves.len()
        invariant
            0 <= t <= claves@.len(),
            forall|u: int| 0 <= u < t ==> (#[trigger] claves@[u])@ != clave@,
        decreases claves@.len() - t,
    {
        if claves[t].eq(clave) {
            return true;
        }
        t += 1;
    }
    false
}

/// Drops every model whose normal form already appeared, keeping first
/// occurrences in order, and counts how many were dropped. Models whose
/// normal form is empty are always kept.
#[verifier::rlimit(60)]
pub fn deduplicar_modelos(modelos: Vec<String>) -> (r: (Vec<String>, usize))
    ensures
        r.0@.map_values(|m: String| m@) == seleccion_unicos(modelos@.map_values(|m: String| m@)),
        r.1 == modelos@.len() - seleccion_unicos(modelos@.map_values(|m: String| m@)).len(),
{
    let ghost vs = modelos@.map_values(|m: String| m@);
    let mut unicos: Vec<String> = Vec::new();
    let mut claves: Vec<String> = Vec::new();
    let mut duplicados: usize = 0;
    let mut idx: usize = 0;
    while idx < modelos.len()
        invariant
            0 <= idx <= modelos@.len(),
            vs == modelos@.map_values(|m: String| m@),
            unicos@.map_values(|m: String| m@) == seleccion_unicos(vs.take(idx as int)),
            duplicados == idx - seleccion_unicos(vs.take(idx as int)).len(),
            forall|t: int|
                0 <= t < claves@.len() ==> (#[trigger] claves@[t])@.len() > 0 && (exists|j: int|
                    0 <= j < idx && normalizar(vs[j]) == claves@[t]@),
            forall|j: int|
                0 <= j < idx && normalizar(#[trigger] vs[j]).len() > 0 ==> (exists|t: int|
                    0 <= t < claves@.len() && (#[trigger] claves@[t])@ == normalizar(vs[j])),
        decreases modelos@.len() - idx,
    {
        let clave = normalizar_texto(modelos[idx].as_str());
        proof {
            assert(vs[idx as int] == modelos@[idx as int]@);
            assert(vs.take(idx as int + 1).drop_last() =~= vs.take(idx as int));
            assert(vs.take(idx as int + 1).last() == vs[idx as int]);
        }
        if clave.as_str().is_empty() {
            unicos.push(modelos[idx].clone());
            proof {
                assert(normalizar(vs[idx as int]).len() == 0);
                assert(unicos@.map_values(|m: String| m@) =~= seleccion_unicos(
                    vs.take(idx as int),
                ).push(vs[idx as int]));
            }
        } else if contiene(&claves, &clave) {
            duplicados += 1;
            proof {
                let t = choose|t: int|
                    0 <= t < claves@.len() && (#[trigger] claves@[t])@ == clave@;
                let j = choose|j: int| 0 <= j < idx && normalizar(vs[j]) == claves@[t]@;
                assert(normalizar(vs[j]) == normalizar(vs[idx as int]));
                assert(vs.take(idx as int)[j] == vs[j]);
                assert(normalizar(vs[idx as int]).len() > 0);
                assert(claves@[t]@ == normalizar(vs[idx as int]));
                assert(!mantener(vs.take(idx as int), vs.take(idx as int + 1).last()));
            }
        } else {
            proof {
                assert forall|j: int|
                    0 <= j < idx implies normalizar(#[trigger] vs.take(idx as int)[j])
                    != normalizar(vs[idx as int]) by {
                    assert(vs.take(idx as int)[j] == vs[j]);
                    if normalizar(vs[j]) == normalizar(vs[idx as int]) {
                        assert(normalizar(vs[j]).len() > 0);
                        let t = choose|t: int|
                            0 <= t < claves@.len() && (#[trigger] claves@[t])@ == normalizar(
                                vs[j],
                            );
                        assert(claves@[t]@ == clave@);
                    }
                }
                assert(mantener(vs.take(idx as int), vs.take(idx as int + 1).last()));
            }
            unicos.push(modelos[idx].clone());
            let ghost claves_antes = claves@;
            claves.push(clave);
            proof {
                assert(unicos@.map_values(|m: String| m@) =~= seleccion_unicos(
                    vs.take(idx as int),
                ).push(vs[idx as int]));
                assert((claves@[claves@.len() - 1])@ == normalizar(vs[idx as int]));
                assert(forall|u: int|
                    0 <= u < claves_antes.len() ==> claves@[u] == #[trigger] claves_antes[u]);
            }
        }
        idx += 1;
    }
    proof {
        assert(vs.take(idx as int) =~= vs);
    }
    (unicos, duplicados)
}

} // verus!
