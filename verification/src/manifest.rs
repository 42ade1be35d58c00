//! Parsing of a line-oriented streaming-variant manifest.
//!
//! The manifest is a byte text split on newlines. After trimming ASCII
//! whitespace from both ends of a line: an empty line and any comment line
//! (starting `#`) other than a variant tag are ignored; a variant tag line
//! (`#EXT-X-STREAM-INF:`) declares a comma-separated attribute list holding
//! a decimal `BANDWIDTH=` (required) and an optional `RESOLUTION=<w>x<h>`;
//! the next URI line (any non-comment line) names the variant's address and
//! emits one variant. A tag whose bandwidth is missing or not a decimal
//! number, a resolution that is not two decimal numbers joined by `x`, or a
//! URI that is not valid UTF-8, make the whole manifest malformed. A
//! resolution height that does not fit in 32 bits is treated as unknown.
//! The attribute list splits at commas outside double quotes, so a quoted
//! attribute value may carry commas; attributes other than bandwidth and
//! resolution are ignored whole.

use crate::errors::InfrastructureError;
use vstd::prelude::*;
use vstd::utf8::encode_utf8;
use vstd::utf8::valid_utf8;

verus! {

/// One parsed variant: its (possibly relative) address and the declared
/// bandwidth and resolution height.
#[derive(Debug, Clone)]
pub struct VarianteStream {
    pub url: String,
    pub bandwidth: Option<u64>,
    pub height: Option<u32>,
}

/// The mathematical shape of a variant: the address as its UTF-8 bytes.
pub ghost struct VarianteVista {
    pub url: Seq<u8>,
    pub bandwidth: Option<u64>,
    pub height: Option<u32>,
}

impl View for VarianteStream {
    type V = VarianteVista;

    open spec fn view(&self) -> VarianteVista {
        VarianteVista { url: encode_utf8(self.url@), bandwidth: self.bandwidth, height: self.height }
    }
}

/// ASCII whitespace trimmed from line and attribute ends.
pub open spec fn es_blanco_b(b: u8) -> bool {
    b == 32 || b == 9 || b == 10 || b == 13 || b == 11 || b == 12
}

pub open spec fn recorte_b_inicio(s: Seq<u8>) -> Seq<u8>
    decreases s.len(),
{
    if s.len() > 0 && es_blanco_b(s[0]) {
        recorte_b_inicio(s.drop_first())
    } else {
        s
    }
}

pub open spec fn recorte_b_final(s: Seq<u8>) -> Seq<u8>
    decreases s.len(),
{
    if s.len() > 0 && es_blanco_b(s.last()) {
        recorte_b_final(s.drop_last())
    } else {
        s
    }
}

pub open spec fn recortar_b(s: Seq<u8>) -> Seq<u8> {
    recorte_b_final(recorte_b_inicio(s))
}

/// Index of the first occurrence of `sep`, or -1 when absent.
pub open spec fn primera(s: Seq<u8>, sep: u8) -> int
    decreases s.len(),
{
    if s.len() == 0 {
        -1
    } else if s[0] == sep {
        0
    } else {
        let r = primera(s.drop_first(), sep);
        if r < 0 {
            -1
        } else {
            r + 1
        }
    }
}

/// The first separator index is inside the sequence, when there is one.
pub proof fn lemma_primera_rango(s: Seq<u8>, sep: u8)
    ensures
        primera(s, sep) < s.len(),
        primera(s, sep) >= -1,
    decreases s.len(),
{
    if s.len() > 0 && s[0] != sep {
        lemma_primera_rango(s.drop_first(), sep);
    }
}

/// The pieces of `s` between occurrences of `sep`; always at least one piece.
pub open spec fn partir(s: Seq<u8>, sep: u8) -> Seq<Seq<u8>>
    decreases s.len(),
    via partir_decrece
{
    let i = primera(s, sep);
    if i < 0 {
        seq![s]
    } else {
        seq![s.take(i)] + partir(s.skip(i + 1), sep)
    }
}

#[via_fn]
proof fn partir_decrece(s: Seq<u8>, sep: u8) {
    lemma_primera_rango(s, sep);
}

/// `"#EXT-X-STREAM-INF:"` as bytes.
pub open spec fn prefijo_inf() -> Seq<u8> {
    seq![35u8, 69u8, 88u8, 84u8, 45u8, 88u8, 45u8, 83u8, 84u8, 82u8, 69u8, 65u8, 77u8, 45u8, 73u8, 78u8, 70u8, 58u8]
}

/// `"BANDWIDTH="` as bytes.
pub open spec fn clave_bw() -> Seq<u8> {
    seq![66u8, 65u8, 78u8, 68u8, 87u8, 73u8, 68u8, 84u8, 72u8, 61u8]
}

/// `"RESOLUTION="` as bytes.
pub open spec fn clave_res() -> Seq<u8> {
    seq![82u8, 69u8, 83u8, 79u8, 76u8, 85u8, 84u8, 73u8, 79u8, 78u8, 61u8]
}

pub open spec fn empieza_con(s: Seq<u8>, p: Seq<u8>) -> bool {
    s.len() >= p.len() && s.take(p.len() as int) == p
}

pub open spec fn es_digito(b: u8) -> bool {
    48 <= b <= 57
}

pub open spec fn todos_digitos(s: Seq<u8>) -> bool {
    s.len() > 0 && (forall|k: int| 0 <= k < s.len() ==> es_digito(s[k]))
}

/// The value of a digit string, unbounded.
pub open spec fn valor_decimal(s: Seq<u8>) -> int
    decreases s.len(),
{
    if s.len() == 0 {
        0
    } else {
        valor_decimal(s.drop_last()) * 10 + (s.last() - 48)
    }
}

/// A nonempty digit string whose value fits in 64 bits, or nothing.
pub open spec fn numero_u64(s: Seq<u8>) -> Option<u64> {
    if todos_digitos(s) && valor_decimal(s) <= u64::MAX {
        Some(valor_decimal(s) as u64)
    } else {
        None
    }
}

/// A resolution value `<w>x<h>`: `None` when malformed; otherwise the height,
/// or `Some(None)` when the height does not fit in 32 bits.
pub open spec fn resolucion(s: Seq<u8>) -> Option<Option<u32>> {
    let i = primera(s, 120);
    if i < 0 {
        None
    } else {
        let w = s.take(i);
        let h = s.skip(i + 1);
        if numero_u64(w) is Some && numero_u64(h) is Some {
            Some(
                if valor_decimal(h) <= u32::MAX {
                    Some(valor_decimal(h) as u32)
                } else {
                    None
                },
            )
        } else {
            None
        }
    }
}

/// Index of the first comma standing outside double quotes, or -1 when
/// there is none; `dentro` says whether the text starts inside quotes.
pub open spec fn primera_coma(s: Seq<u8>, dentro: bool) -> int
    decreases s.len(),
{
    if s.len() == 0 {
        -1
    } else if !dentro && s[0] == 44 {
        0
    } else {
        let sigue = if s[0] == 34 {
            !dentro
        } else {
            dentro
        };
        let r = primera_coma(s.drop_first(), sigue);
        if r < 0 {
            -1
        } else {
            r + 1
        }
    }
}

pub proof fn lemma_primera_coma_rango(s: Seq<u8>, dentro: bool)
    ensures
        -1 <= primera_coma(s, dentro) < s.len(),
    decreases s.len(),
{
    if s.len() > 0 && !(!dentro && s[0] == 44) {
        let sigue = if s[0] == 34 {
            !dentro
        } else {
            dentro
        };
        lemma_primera_coma_rango(s.drop_first(), sigue);
    }
}

/// The attribute pieces of a tag payload: split at the commas that stand
/// outside double quotes.
pub open spec fn partir_attrs(s: Seq<u8>) -> Seq<Seq<u8>>
    decreases s.len(),
    via partir_attrs_decrece
{
    let i = primera_coma(s, false);
    if i < 0 {
        seq![s]
    } else {
        seq![s.take(i)] + partir_attrs(s.skip(i + 1))
    }
}

#[via_fn]
proof fn partir_attrs_decrece(s: Seq<u8>) {
    lemma_primera_coma_rango(s, false);
}

/// Folds the attribute pieces left to right; a later bandwidth or resolution
/// overrides an earlier one, a malformed one poisons the whole tag.
pub open spec fn acumular_attrs(ts: Seq<Seq<u8>>) -> Option<(Option<u64>, Option<u32>)>
    decreases ts.len(),
{
    if ts.len() == 0 {
        Some((None, None))
    } else {
        match acumular_attrs(ts.drop_last()) {
            None => None,
            Some((bw, h)) => {
                let t = recortar_b(ts.last());
                if empieza_con(t, clave_bw()) {
                    match numero_u64(t.skip(10)) {
                        Some(v) => Some((Some(v), h)),
                        None => None,
                    }
                } else if empieza_con(t, clave_res()) {
                    match resolucion(t.skip(11)) {
                        Some(hh) => Some((bw, hh)),
                        None => None,
                    }
                } else {
                    Some((bw, h))
                }
            },
        }
    }
}

/// A variant tag's payload: the declared bandwidth (required) and height.
pub open spec fn etiqueta_inf(resto: Seq<u8>) -> Option<(u64, Option<u32>)> {
    match acumular_attrs(partir_attrs(resto)) {
        Some((Some(bw), h)) => Some((bw, h)),
        _ => None,
    }
}

pub ghost enum ClaseLinea {
    Etiqueta(u64, Option<u32>),
    Uri(Seq<u8>),
    Otra,
    MalFormada,
}

/// What one (untrimmed) manifest line means.
pub open spec fn clasificar(l: Seq<u8>) -> ClaseLinea {
    let t = recortar_b(l);
    if t.len() == 0 {
        ClaseLinea::Otra
    } else if empieza_con(t, prefijo_inf()) {
        match etiqueta_inf(t.skip(prefijo_inf().len() as int)) {
            Some((b, h)) => ClaseLinea::Etiqueta(b, h),
            None => ClaseLinea::MalFormada,
        }
    } else if t[0] == 35 {
        ClaseLinea::Otra
    } else if valid_utf8(t) {
        ClaseLinea::Uri(t)
    } else {
        ClaseLinea::MalFormada
    }
}

/// Walks the lines with the pending tag, emitting one variant per URI line
/// that follows a tag line.
pub open spec fn procesar(ls: Seq<Seq<u8>>, pend: Option<(u64, Option<u32>)>) -> Option<
    Seq<VarianteVista>,
>
    decreases ls.len(),
{
    if ls.len() == 0 {
        Some(Seq::empty())
    } else {
        match clasificar(ls[0]) {
            ClaseLinea::MalFormada => None,
            ClaseLinea::Etiqueta(b, h) => procesar(ls.drop_first(), Some((b, h))),
            ClaseLinea::Otra => procesar(ls.drop_first(), pend),
            ClaseLinea::Uri(u) => match pend {
                Some((b, h)) => match procesar(ls.drop_first(), None) {
                    Some(r) => Some(
                        seq![VarianteVista { url: u, bandwidth: Some(b), height: h }] + r,
                    ),
                    None => None,
                },
                None => procesar(ls.drop_first(), None),
            },
        }
    }
}

/// The variants a manifest text declares, or nothing when it is malformed.
pub open spec fn analizar(contenido: Seq<u8>) -> Option<Seq<VarianteVista>> {
    procesar(partir(contenido, 10), None)
}

proof fn lemma_primera_en(s: Seq<u8>, sep: u8, j: int)
    requires
        0 <= j <= s.len(),
        forall|k: int| 0 <= k < j ==> s[k] != sep,
        j == s.len() || s[j] == sep,
    ensures
        primera(s, sep) == if j == s.len() {
            -1
        } else {
            j
        },
    decreases j,
{
    if j > 0 {
        assert forall|k: int| 0 <= k < j - 1 implies s.drop_first()[k] != sep by {
            assert(s.drop_first()[k] == s[k + 1]);
        }
        lemma_primera_en(s.drop_first(), sep, j - 1);
    }
}

fn es_blanco_b_exec(b: u8) -> (r: bool)
    ensures
        r == es_blanco_b(b),
{
    b == 32 || b == 9 || b == 10 || b == 13 || b == 11 || b == 12
}

fn subvec(s: &[u8], desde: usize, hasta: usize) -> (r: Vec<u8>)
    requires
        desde <= hasta <= s@.len(),
    ensures
        r@ == s@.subrange(desde as int, hasta as int),
{
    let mut r: Vec<u8> = Vec::new();
    let mut k: usize = desde;
    while k < hasta
        invariant
            desde <= k <= hasta <= s@.len(),
            r@ == s@.subrange(desde as int, k as int),
        decreases hasta - k,
    {
        r.push(s[k]);
        k += 1;
        proof {
            assert(s@.subrange(desde as int, k as int) =~= s@.subrange(
                desde as int,
                k - 1,
            ).push(s@[k - 1]));
        }
    }
    r
}

proof fn lemma_recorte_b_inicio_idx(s: Seq<u8>, i: int)
    requires
        0 <= i <= s.len(),
        forall|k: int| 0 <= k < i ==> es_blanco_b(s[k]),
        i == s.len() || !es_blanco_b(s[i]),
    ensures
        recorte_b_inicio(s) == s.skip(i),
    decreases i,
{
    if i == 0 {
        assert(s.skip(0) =~= s);
    } else {
        lemma_recorte_b_inicio_idx(s.drop_first(), i - 1);
        assert(s.drop_first().skip(i - 1) =~= s.skip(i));
    }
}

proof fn lemma_recorte_b_final_idx(s: Seq<u8>, j: int)
    requires
        0 <= j <= s.len(),
        forall|k: int| j <= k < s.len() ==> es_blanco_b(s[k]),
        j == 0 || !es_blanco_b(s[j - 1]),
    ensures
        recorte_b_final(s) == s.take(j),
    decreases s.len() - j,
{
    if j == s.len() {
        assert(s.take(j) =~= s);
    } else {
        lemma_recorte_b_final_idx(s.drop_last(), j);
        assert(s.drop_last().take(j) =~= s.take(j));
    }
}

fn recortar_bytes(s: &[u8]) -> (r: Vec<u8>)
    ensures
        r@ == recortar_b(s@),
{
    let mut i: usize = 0;
    while i < s.len() && es_blanco_b_exec(s[i])
        invariant
            0 <= i <= s@.len(),
            forall|k: int| 0 <= k < i ==> es_blanco_b(s@[k]),
        decreases s@.len() - i,
    {
        i += 1;
    }
    let mut j: usize = s.len();
    while j > i && es_blanco_b_exec(s[j - 1])
        invariant
            i <= j <= s@.len(),
            forall|k: int| j <= k < s@.len() ==> es_blanco_b(s@[k]),
        decreases j,
    {
        j -= 1;
    }
    proof {
        lemma_recorte_b_inicio_idx(s@, i as int);
        if j == i {
            lemma_recorte_b_final_idx(s@.skip(i as int), 0);
        } else {
            lemma_recorte_b_final_idx(s@.skip(i as int), j - i);
        }
        assert(s@.skip(i as int).take(j - i) =~= s@.subrange(i as int, j as int));
    }
    subvec(s, i, j)
}

fn partir_desde(s: &[u8], desde: usize, sep: u8) -> (r: Vec<Vec<u8>>)
    requires
        desde <= s@.len(),
    ensures
        r@.map_values(|v: Vec<u8>| v@) == partir(s@.skip(desde as int), sep),
    decreases s@.len() - desde,
{
    let mut j: usize = desde;
    while j < s.len() && s[j] != sep
        invariant
            desde <= j <= s@.len(),
            forall|k: int| desde <= k < j ==> s@[k] != sep,
        decreases s@.len() - j,
    {
        j += 1;
    }
    let pieza = subvec(s, desde, j);
    proof {
        let ss = s@.skip(desde as int);
        assert forall|k: int| 0 <= k < j - desde implies ss[k] != sep by {
            assert(ss[k] == s@[k + desde]);
        }
        if j < s@.len() {
            assert(ss[j - desde] == s@[j as int]);
        }
        lemma_primera_en(ss, sep, j - desde);
    }
    if j == s.len() {
        let mut r: Vec<Vec<u8>> = Vec::new();
        r.push(pieza);
        proof {
            assert(pieza@ =~= s@.skip(desde as int));
            assert(r@.map_values(|v: Vec<u8>| v@) =~= seq![s@.skip(desde as int)]);
        }
        r
    } else {
        let mut r = partir_desde(s, j + 1, sep);
        let ghost r_antes = r@;
        r.insert(0, pieza);
        proof {
            let ss = s@.skip(desde as int);
            assert(pieza@ =~= ss.take(j - desde));
            assert(ss.skip(j - desde + 1) =~= s@.skip(j + 1));
            assert(r@.map_values(|v: Vec<u8>| v@) =~= seq![pieza@] + r_antes.map_values(
                |v: Vec<u8>| v@,
            ));
        }
        r
    }
}

fn partir_attrs_exec(s: &[u8], desde: usize) -> (r: Vec<Vec<u8>>)
    requires
        desde <= s@.len(),
    ensures
        r@.map_values(|v: Vec<u8>| v@) == partir_attrs(s@.skip(desde as int)),
    decreases s@.len() - desde,
{
    let ghost ss = s@.skip(desde as int);
    let mut j: usize = desde;
    let mut dentro = false;
    while j < s.len() && (dentro || s[j] != 44)
        invariant
            desde <= j <= s@.len(),
            ss == s@.skip(desde as int),
            primera_coma(ss, false) == (if primera_coma(s@.skip(j as int), dentro) < 0 {
                -1int
            } else {
                primera_coma(s@.skip(j as int), dentro) + (j - desde)
            }),
        decreases s@.len() - j,
    {
        let ghost j_antes = j as int;
        if s[j] == 34 {
            dentro = !dentro;
        }
        j += 1;
        proof {
            assert(s@.skip(j_antes)[0] == s@[j_antes]);
            assert(s@.skip(j_antes).drop_first() =~= s@.skip(j_antes + 1));
        }
    }
    if j == s.len() {
        proof {
            assert(s@.skip(j as int) =~= Seq::<u8>::empty());
            assert(primera_coma(ss, false) == -1);
        }
        let pieza = subvec(s, desde, j);
        let mut r: Vec<Vec<u8>> = Vec::new();
        r.push(pieza);
        proof {
            assert(r@[0]@ =~= ss);
            assert(r@.map_values(|v: Vec<u8>| v@) =~= seq![ss]);
        }
        r
    } else {
        proof {
            assert(s@.skip(j as int)[0] == s@[j as int]);
            assert(primera_coma(s@.skip(j as int), dentro) == 0);
            assert(primera_coma(ss, false) == j - desde);
        }
        let pieza = subvec(s, desde, j);
        let mut r = partir_attrs_exec(s, j + 1);
        let ghost r_antes = r@;
        r.insert(0, pieza);
        proof {
            assert(pieza@ =~= ss.take(j - desde));
            assert(ss.skip(j - desde + 1) =~= s@.skip(j + 1));
            assert(r@.map_values(|v: Vec<u8>| v@) =~= seq![pieza@] + r_antes.map_values(
                |v: Vec<u8>| v@,
            ));
        }
        r
    }
}

proof fn lemma_valor_no_negativo(s: Seq<u8>)
    requires
        forall|t: int| 0 <= t < s.len() ==> es_digito(s[t]),
    ensures
        valor_decimal(s) >= 0,
    decreases s.len(),
{
    if s.len() > 0 {
        lemma_valor_no_negativo(s.drop_last());
    }
}

proof fn lemma_valor_prefijo(s: Seq<u8>, k: int)
    requires
        0 <= k <= s.len(),
        forall|t: int| 0 <= t < s.len() ==> es_digito(s[t]),
    ensures
        valor_decimal(s.take(k)) <= valor_decimal(s),
    decreases s.len() - k,
{
    if k == s.len() {
        assert(s.take(k) =~= s);
    } else {
        assert(s.take(k + 1).drop_last() =~= s.take(k));
        assert(s.take(k + 1).last() == s[k]);
        assert forall|t: int| 0 <= t < s.take(k).len() implies es_digito(s.take(k)[t]) by {}
        lemma_valor_no_negativo(s.take(k));
        lemma_valor_prefijo(s, k + 1);
    }
}

fn parsear_numero(s: &[u8]) -> (r: Option<u64>)
    ensures
        r == numero_u64(s@),
{
    if s.len() == 0 {
        return None;
    }
    let mut val: u64 = 0;
    let mut k: usize = 0;
    while k < s.len()
        invariant
            0 <= k <= s@.len(),
            s@.len() > 0,
            forall|t: int| 0 <= t < k ==> es_digito(s@[t]),
            val == valor_decimal(s@.take(k as int)),
        decreases s@.len() - k,
    {
        let b = s[k];
        if b < 48 || b > 57 {
            return None;
        }
        proof {
            assert(s@.take(k + 1).drop_last() =~= s@.take(k as int));
            assert(s@.take(k + 1).last() == s@[k as int]);
        }
        let v10 = match val.checked_mul(10) {
            Some(v) => v,
            None => {
                proof {
                    if todos_digitos(s@) {
                        lemma_valor_prefijo(s@, k + 1);
                    }
                }
                return None;
            },
        };
        let v = match v10.checked_add((b - 48) as u64) {
            Some(v) => v,
            None => {
                proof {
                    if todos_digitos(s@) {
                        lemma_valor_prefijo(s@, k + 1);
                    }
                }
                return None;
            },
        };
        val = v;
        k += 1;
    }
    proof {
        assert(s@.take(s@.len() as int) =~= s@);
    }
    Some(val)
}

fn es_prefijo(s: &[u8], p: &[u8]) -> (r: bool)
    ensures
        r == empieza_con(s@, p@),
{
    if s.len() < p.len() {
        return false;
    }
    let mut k: usize = 0;
    while k < p.len()
        invariant
            0 <= k <= p@.len() <= s@.len(),
            forall|t: int| 0 <= t < k ==> s@[t] == p@[t],
        decreases p@.len() - k,
    {
        if s[k] != p[k] {
            proof {
                assert(s@.take(p@.len() as int)[k as int] == s@[k as int]);
            }
            return false;
        }
        k += 1;
    }
    proof {
        assert(s@.take(p@.len() as int) =~= p@);
    }
    true
}

fn parsear_resolucion(s: &[u8]) -> (r: Option<Option<u32>>)
    ensures
        r == resolucion(s@),
{
    let mut j: usize = 0;
    while j < s.len() && s[j] != 120
        invariant
            0 <= j <= s@.len(),
            forall|k: int| 0 <= k < j ==> s@[k] != 120,
        decreases s@.len() - j,
    {
        j += 1;
    }
    proof {
        lemma_primera_en(s@, 120, j as int);
    }
    if j == s.len() {
        return None;
    }
    let ancho = subvec(s, 0, j);
    let alto = subvec(s, j + 1, s.len());
    proof {
        assert(ancho@ =~= s@.take(j as int));
        assert(alto@ =~= s@.skip(j + 1));
    }
    if parsear_numero(ancho.as_slice()).is_none() {
        return None;
    }
    let vh = match parsear_numero(alto.as_slice()) {
        Some(v) => v,
        None => {
            return None;
        },
    };
    proof {
        lemma_valor_no_negativo(s@.skip(j + 1));
    }
    if vh <= 0xFFFF_FFFF {
        Some(Some(vh as u32))
    } else {
        Some(None)
    }
}

/// Relies on `str::from_utf8` and `str::to_owned`: decoding succeeds exactly
/// on valid UTF-8 and returns the text those bytes encode.
#[verifier::external_body]
fn decodificar_utf8(b: &[u8]) -> (r: Option<String>)
    ensures
        (r is Some) == valid_utf8(b@),
        r matches Some(s) ==> encode_utf8(s@) == b@,
{
    match std::str::from_utf8(b) {
        Ok(s) => Some(s.to_owned()),
        Err(_) => None,
    }
}

proof fn lemma_acumular_none(ts: Seq<Seq<u8>>, k: int)
    requires
        0 <= k <= ts.len(),
        acumular_attrs(ts.take(k)) is None,
    ensures
        acumular_attrs(ts) is None,
    decreases ts.len() - k,
{
    if k == ts.len() {
        assert(ts.take(k) =~= ts);
    } else {
        assert(ts.take(k + 1).drop_last() =~= ts.take(k));
        lemma_acumular_none(ts, k + 1);
    }
}

fn parsear_etiqueta(resto: &[u8]) -> (r: Option<(u64, Option<u32>)>)
    ensures
        r == etiqueta_inf(resto@),
{
    let trozos = partir_attrs_exec(resto, 0);
    proof {
        assert(resto@.skip(0) =~= resto@);
    }
    let ghost ts = trozos@.map_values(|v: Vec<u8>| v@);
    let mut bw: Option<u64> = None;
    let mut h: Option<u32> = None;
    let mut k: usize = 0;
    while k < trozos.len()
        invariant
            0 <= k <= trozos@.len(),
            ts == trozos@.map_values(|v: Vec<u8>| v@),
            ts == partir_attrs(resto@),
            acumular_attrs(ts.take(k as int)) == Some((bw, h)),
        decreases trozos@.len() - k,
    {
        proof {
            assert(ts.take(k + 1).drop_last() =~= ts.take(k as int));
            assert(ts.take(k + 1).last() == ts[k as int]);
            assert(ts[k as int] == trozos@[k as int]@);
        }
        let tt = recortar_bytes(trozos[k].as_slice());
        let cb: Vec<u8> = vec![66u8, 65u8, 78u8, 68u8, 87u8, 73u8, 68u8, 84u8, 72u8, 61u8];
        let cr: Vec<u8> = vec![
            82u8,
            69u8,
            83u8,
            79u8,
            76u8,
            85u8,
            84u8,
            73u8,
            79u8,
            78u8,
            61u8,
        ];
        proof {
            assert(cb@ =~= clave_bw());
            assert(cr@ =~= clave_res());
        }
        if es_prefijo(tt.as_slice(), cb.as_slice()) {
            let num = subvec(tt.as_slice(), 10, tt.len());
            proof {
                assert(num@ =~= recortar_b(ts[k as int]).skip(10));
            }
            match parsear_numero(num.as_slice()) {
                Some(v) => {
                    bw = Some(v);
                },
                None => {
                    proof {
                        lemma_acumular_none(ts, k + 1);
                    }
                    return None;
                },
            }
        } else if es_prefijo(tt.as_slice(), cr.as_slice()) {
            let valr = subvec(tt.as_slice(), 11, tt.len());
            proof {
                assert(valr@ =~= recortar_b(ts[k as int]).skip(11));
            }
            match parsear_resolucion(valr.as_slice()) {
                Some(hh) => {
                    h = hh;
                },
                None => {
                    proof {
                        lemma_acumular_none(ts, k + 1);
                    }
                    return None;
                },
            }
        }
        k += 1;
    }
    proof {
        assert(ts.take(trozos@.len() as int) =~= ts);
    }
    match bw {
        Some(b) => Some((b, h)),
        None => None,
    }
}

enum ClaseLineaExec {
    Etiqueta(u64, Option<u32>),
    Uri(String),
    Otra,
    MalFormada,
}

fn clasificar_linea(l: &Vec<u8>) -> (r: ClaseLineaExec)
    ensures
        match r {
            ClaseLineaExec::Etiqueta(b, h) => clasificar(l@) == ClaseLinea::Etiqueta(b, h),
            ClaseLineaExec::Uri(u) => clasificar(l@) == ClaseLinea::Uri(encode_utf8(u@)),
            ClaseLineaExec::Otra => clasificar(l@) is Otra,
            ClaseLineaExec::MalFormada => clasificar(l@) is MalFormada,
        },
{
    let t = recortar_bytes(l.as_slice());
    if t.len() == 0 {
        return ClaseLineaExec::Otra;
    }
    let pref: Vec<u8> = vec![
        35u8,
        69u8,
        88u8,
        84u8,
        45u8,
        88u8,
        45u8,
        83u8,
        84u8,
        82u8,
        69u8,
        65u8,
        77u8,
        45u8,
        73u8,
        78u8,
        70u8,
        58u8,
    ];
    proof {
        assert(pref@ =~= prefijo_inf());
    }
    if es_prefijo(t.as_slice(), pref.as_slice()) {
        let resto = subvec(t.as_slice(), 18, t.len());
        proof {
            assert(resto@ =~= recortar_b(l@).skip(prefijo_inf().len() as int));
        }
        match parsear_etiqueta(resto.as_slice()) {
            Some((b, h)) => ClaseLineaExec::Etiqueta(b, h),
            None => ClaseLineaExec::MalFormada,
        }
    } else if t[0] == 35 {
        ClaseLineaExec::Otra
    } else {
        match decodificar_utf8(t.as_slice()) {
            Some(u) => ClaseLineaExec::Uri(u),
            None => ClaseLineaExec::MalFormada,
        }
    }
}

/// Parses a manifest text into its declared variants; a malformed manifest
/// is rejected as an external-service error. The variants keep the order in
/// which the manifest declares them.
pub fn parsear_variantes(contenido: &[u8]) -> (r: Result<
    Vec<VarianteStream>,
    InfrastructureError,
>)
    ensures
        match r {
            Ok(vs) => analizar(contenido@) == Some(
                vs@.map_values(|v: VarianteStream| v@),
            ),
            Err(e) => analizar(contenido@) is None && e matches
                InfrastructureError::ExternalService(_),
        },
{
    let lineas = partir_desde(contenido, 0, 10);
    proof {
        assert(contenido@.skip(0) =~= contenido@);
    }
    let ghost ls = lineas@.map_values(|v: Vec<u8>| v@);
    let mut variantes: Vec<VarianteStream> = Vec::new();
    let mut pendiente: Option<(u64, Option<u32>)> = None;
    proof {
        assert(ls.skip(0) =~= ls);
        assert(variantes@.map_values(|v: VarianteStream| v@) =~= Seq::<VarianteVista>::empty());
        match procesar(ls, None) {
            Some(resto) => {
                assert(Seq::<VarianteVista>::empty() + resto =~= resto);
            },
            None => {},
        }
    }
    let mut k: usize = 0;
    while k < lineas.len()
        invariant
            0 <= k <= lineas@.len(),
            ls == lineas@.map_values(|v: Vec<u8>| v@),
            match procesar(ls.skip(k as int), pendiente) {
                Some(resto) => analizar(contenido@) == Some(
                    variantes@.map_values(|v: VarianteStream| v@) + resto,
                ),
                None => analizar(contenido@) is None,
            },
        decreases lineas@.len() - k,
    {
        proof {
            assert(ls.skip(k as int).drop_first() =~= ls.skip(k + 1));
            assert(ls.skip(k as int)[0] == ls[k as int]);
            assert(ls[k as int] == lineas@[k as int]@);
        }
        let ghost vars_antes = variantes@;
        match clasificar_linea(&lineas[k]) {
            ClaseLineaExec::Etiqueta(b, h) => {
                pendiente = Some((b, h));
            },
            ClaseLineaExec::Otra => {},
            ClaseLineaExec::MalFormada => {
                return Err(InfrastructureError::ExternalService("Invalid playlist".to_owned()));
            },
            ClaseLineaExec::Uri(u) => {
                match pendiente {
                    Some((b, h)) => {
                        let ghost vv = VarianteVista {
                            url: encode_utf8(u@),
                            bandwidth: Some(b),
                            height: h,
                        };
                        variantes.push(
                            VarianteStream { url: u, bandwidth: Some(b), height: h },
                        );
                        pendiente = None;
                        proof {
                            assert(variantes@.map_values(|v: VarianteStream| v@)
                                =~= vars_antes.map_values(|v: VarianteStream| v@).push(vv));
                            match procesar(ls.skip(k + 1), pendiente) {
                                Some(resto) => {
                                    assert(vars_antes.map_values(|v: VarianteStream| v@) + (
                                    seq![vv] + resto) =~= variantes@.map_values(
                                        |v: VarianteStream| v@,
                                    ) + resto);
                                },
                                None => {},
                            }
                        }
                    },
                    None => {},
                }
            },
        }
        k += 1;
    }
    proof {
        assert(ls.skip(lineas@.len() as int) =~= Seq::<Seq<u8>>::empty());
        assert(variantes@.map_values(|v: VarianteStream| v@) + Seq::<VarianteVista>::empty()
            =~= variantes@.map_values(|v: VarianteStream| v@));
    }
    Ok(variantes)
}

} // verus!
