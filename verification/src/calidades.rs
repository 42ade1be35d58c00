//! The quality listing shown for one stream: every variant's height and
//! bandwidth, sorted by height first and bandwidth second, missing values
//! counting as zero.

use crate::manifest::VarianteStream;
use crate::select::par_le;
use crate::select::par_lt;
use vstd::multiset::Multiset;
use vstd::prelude::*;

verus! {

/// One available quality of a stream.
#[derive(Debug, Clone, Copy, PartialEq, Eq, Structural)]
pub struct CalidadDisponible {
    pub height: Option<u32>,
    pub bandwidth: Option<u64>,
}

pub open spec fn clave_cal(c: CalidadDisponible) -> (int, int) {
    (
        match c.height {
            Some(h) => h as int,
            None => 0,
        },
        match c.bandwidth {
            Some(b) => b as int,
            None => 0,
        },
    )
}

pub open spec fn cal_le(a: CalidadDisponible, b: CalidadDisponible) -> bool {
    par_le(clave_cal(a), clave_cal(b))
}

pub open spec fn ordenada(s: Seq<CalidadDisponible>) -> bool {
    forall|i: int, j: int| 0 <= i < j < s.len() ==> cal_le(#[trigger] s[i], #[trigger] s[j])
}

/// The quality a variant advertises.
pub open spec fn calidad_de(v: VarianteStream) -> CalidadDisponible {
    CalidadDisponible { height: v.height, bandwidth: v.bandwidth }
}

fn menor_cal(a: &CalidadDisponible, b: &CalidadDisponible) -> (r: bool)
    ensures
        r == par_lt(clave_cal(*a), clave_cal(*b)),
{
    let ha: u32 = match a.height {
        Some(h) => h,
        None => 0,
    };
    let hb: u32 = match b.height {
        Some(h) => h,
        None => 0,
    };
    let ba: u64 = match a.bandwidth {
        Some(x) => x,
        None => 0,
    };
    let bb: u64 = match b.bandwidth {
        Some(x) => x,
        None => 0,
    };
    ha < hb || (ha == hb && ba < bb)
}

/// The qualities a variant list offers, sorted by (height, bandwidth) with
/// missing values as zero; exactly one entry per variant.
pub fn listar_calidades(variantes: &Vec<VarianteStream>) -> (r: Vec<CalidadDisponible>)
    ensures
        ordenada(r@),
        r@.to_multiset() == variantes@.map_values(|v: VarianteStream| calidad_de(v)).to_multiset(),
{
    let mut pendientes: Vec<CalidadDisponible> = Vec::new();
    let mut k: usize = 0;
    while k < variantes.len()
        invariant
            0 <= k <= variantes@.len(),
            pendientes@ == variantes@.take(k as int).map_values(|v: VarianteStream| calidad_de(v)),
        decreases variantes@.len() - k,
    {
        pendientes.push(
            CalidadDisponible { height: variantes[k].height, bandwidth: variantes[k].bandwidth },
        );
        k += 1;
        proof {
            assert(variantes@.take(k as int).map_values(|v: VarianteStream| calidad_de(v))
                =~= variantes@.take(k - 1).map_values(|v: VarianteStream| calidad_de(v)).push(
                calidad_de(variantes@[k - 1]),
            ));
        }
    }
    proof {
        assert(variantes@.take(variantes@.len() as int) =~= variantes@);
    }
    let ghost objetivo = pendientes@.to_multiset();
    let mut salida: Vec<CalidadDisponible> = Vec::new();
    proof {
        broadcast use vstd::seq_lib::group_to_multiset_ensures;

        assert(salida@.to_multiset().add(pendientes@.to_multiset()) =~= objetivo);
    }
    while pendientes.len() > 0
        invariant
            salida@.to_multiset().add(pendientes@.to_multiset()) == objetivo,
            ordenada(salida@),
            forall|i: int, j: int|
                0 <= i < salida@.len() && 0 <= j < pendientes@.len() ==> cal_le(
                    #[trigger] salida@[i],
                    #[trigger] pendientes@[j],
                ),
        decreases pendientes@.len(),
    {
        let mut m: usize = 0;
        let mut t: usize = 1;
        while t < pendientes.len()
            invariant
                0 <= m < t <= pendientes@.len(),
                forall|u: int| 0 <= u < t ==> cal_le(pendientes@[m as int], #[trigger] pendientes@[u]),
            decreases pendientes@.len() - t,
        {
            if menor_cal(&pendientes[t], &pendientes[m]) {
                m = t;
            }
            t += 1;
        }
        let ghost antes = pendientes@;
        let ghost salida_antes = salida@;
        let x = pendientes.remove(m);
        salida.push(x);
        proof {
            broadcast use vstd::seq_lib::group_to_multiset_ensures;

            assert(salida@ == salida_antes.push(x));
            assert(pendientes@.to_multiset() =~= antes.to_multiset().remove(x));
            assert(antes.to_multiset().count(x) >= 1);
            assert(salida@.to_multiset().add(pendientes@.to_multiset()) =~= salida_antes
                .to_multiset().add(antes.to_multiset()));
            assert forall|j: int| 0 <= j < pendientes@.len() implies cal_le(
                x,
                #[trigger] pendientes@[j],
            ) by {
                if j < m {
                    assert(pendientes@[j] == antes[j]);
                } else {
                    assert(pendientes@[j] == antes[j + 1]);
                }
            }
            assert forall|i: int, j: int|
                0 <= i < j < salida@.len() implies cal_le(salida@[i], salida@[j]) by {
                if j < salida@.len() - 1 {
                    assert(cal_le(salida_antes[i], salida_antes[j]));
                } else {
                    assert(salida@[j] == x);
                    if i < salida_antes.len() {
                        assert(cal_le(salida_antes[i], antes[m as int]));
                    }
                }
            }
        }
    }
    proof {
        broadcast use vstd::seq_lib::group_to_multiset_ensures;

        assert(pendientes@.to_multiset() =~= Multiset::<CalidadDisponible>::empty());
        assert(salida@.to_multiset().add(Multiset::<CalidadDisponible>::empty())
            =~= salida@.to_multiset());
    }
    salida
}

} // verus!
