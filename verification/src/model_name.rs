//! Validated, normalized model identifiers.
//!
//! A raw identifier is normalized by trimming Unicode whitespace at both
//! ends and lowercasing it under Unicode case conversion, and is accepted
//! only if the normal form is nonempty, at most 100 bytes of UTF-8, and
//! made of alphanumeric characters, underscore or hyphen. The normal form
//! is also the key under which identifiers are deduplicated.

use crate::errors::DomainError;
use vstd::prelude::*;
use vstd::string::StrSliceExecFns;
use vstd::utf8::encode_utf8;

verus! {

/// The Unicode `White_Space` characters — the set `str::trim` strips from
/// the ends of a text.
pub open spec fn es_blanco(c: char) -> bool {
    c as u32 == 9 || c as u32 == 10 || c as u32 == 11 || c as u32 == 12 || c as u32 == 13 || c
        as u32 == 32 || c as u32 == 0x85 || c as u32 == 0xA0 || c as u32 == 0x1680 || (0x2000 <= c
        as u32 && c as u32 <= 0x200A) || c as u32 == 0x2028 || c as u32 == 0x2029 || c as u32
        == 0x202F || c as u32 == 0x205F || c as u32 == 0x3000
}

/// What `str::to_lowercase` returns: the Unicode lowercase of a text, a
/// function of its characters alone.
pub uninterp spec fn minusculas_de(s: Seq<char>) -> Seq<char>;

/// What `char::is_alphanumeric` returns: whether the character is a Unicode
/// letter or number.
pub uninterp spec fn es_alfanumerico(c: char) -> bool;

pub assume_specification[ char::is_alphanumeric ](c: char) -> (r: bool)
    ensures
        r == es_alfanumerico(c),
;

pub open spec fn recorte_inicio(s: Seq<char>) -> Seq<char>
    decreases s.len(),
{
    if s.len() > 0 && es_blanco(s[0]) {
        recorte_inicio(s.drop_first())
    } else {
        s
    }
}

pub open spec fn recorte_final(s: Seq<char>) -> Seq<char>
    decreases s.len(),
{
    if s.len() > 0 && es_blanco(s.last()) {
        recorte_final(s.drop_last())
    } else {
        s
    }
}

/// Both ends stripped of whitespace.
pub open spec fn recortar(s: Seq<char>) -> Seq<char> {
    recorte_final(recorte_inicio(s))
}

/// The normal form of a raw identifier: trimmed, then lowercased.
pub open spec fn normalizar(s: Seq<char>) -> Seq<char> {
    minusculas_de(recortar(s))
}

/// The characters a normalized identifier may consist of.
pub open spec fn es_permitido(c: char) -> bool {
    es_alfanumerico(c) || c == '_' || c == '-'
}

/// A normal form is a valid identifier when it is nonempty, at most 100
/// bytes of UTF-8, and made of permitted characters.
pub open spec fn es_nombre_valido(s: Seq<char>) -> bool {
    s.len() > 0 && encode_utf8(s).len() <= 100 && (forall|i: int|
        0 <= i < s.len() ==> es_permitido(s[i]))
}

fn es_blanco_exec(c: char) -> (r: bool)
    ensures
        r == es_blanco(c),
{
    let u = c as u32;
    u == 9 || u == 10 || u == 11 || u == 12 || u == 13 || u == 32 || u == 0x85 || u == 0xA0 || u
        == 0x1680 || (0x2000 <= u && u <= 0x200A) || u == 0x2028 || u == 0x2029 || u == 0x202F
        || u == 0x205F || u == 0x3000
}

/// Relies on `str::to_lowercase`: the Unicode lowercase of a text depends
/// on its characters alone; Unicode's default case conversion is
/// idempotent, maps a text to an empty one exactly when it was empty, and
/// — whitespace being uncased and no lowercase mapping producing
/// whitespace — keeps whitespace at either end exactly where the input
/// had it.
#[verifier::external_body]
fn a_minusculas(s: &str) -> (r: String)
    ensures
        r@ == minusculas_de(s@),
        minusculas_de(r@) == r@,
        (r@.len() == 0) == (s@.len() == 0),
        r@.len() > 0 ==> es_blanco(r@[0]) == es_blanco(s@[0]),
        r@.len() > 0 ==> es_blanco(r@.last()) == es_blanco(s@.last()),
{
    s.to_lowercase()
}

proof fn lemma_recorte_inicio_idx(s: Seq<char>, i: int)
    requires
        0 <= i <= s.len(),
        forall|k: int| 0 <= k < i ==> es_blanco(s[k]),
        i == s.len() || !es_blanco(s[i]),
    ensures
        recorte_inicio(s) == s.skip(i),
    decreases i,
{
    if i == 0 {
        assert(s.skip(0) =~= s);
    } else {
        lemma_recorte_inicio_idx(s.drop_first(), i - 1);
        assert(s.drop_first().skip(i - 1) =~= s.skip(i));
    }
}

proof fn lemma_recorte_final_idx(s: Seq<char>, j: int)
    requires
        0 <= j <= s.len(),
        forall|k: int| j <= k < s.len() ==> es_blanco(s[k]),
        j == 0 || !es_blanco(s[j - 1]),
    ensures
        recorte_final(s) == s.take(j),
    decreases s.len() - j,
{
    if j == s.len() {
        assert(s.take(j) =~= s);
    } else {
        lemma_recorte_final_idx(s.drop_last(), j);
        assert(s.drop_last().take(j) =~= s.take(j));
    }
}

/// Strips whitespace from both ends, changing nothing else.
pub fn recortar_texto(s: &str) -> (r: String)
    ensures
        r@ == recortar(s@),
{
    let len = s.unicode_len();
    let mut i: usize = 0;
    while i < len && es_blanco_exec(s.get_char(i))
        invariant
            0 <= i <= len,
            len == s@.len(),
            forall|k: int| 0 <= k < i ==> es_blanco(s@[k]),
        decreases len - i,
    {
        i += 1;
    }
    let mut j: usize = len;
    while j > i && es_blanco_exec(s.get_char(j - 1))
        invariant
            i <= j <= len,
            len == s@.len(),
            forall|k: int| j <= k < len ==> es_blanco(s@[k]),
        decreases j,
    {
        j -= 1;
    }
    proof {
        lemma_recorte_inicio_idx(s@, i as int);
        if j == i {
            lemma_recorte_final_idx(s@.skip(i as int), 0);
        } else {
            lemma_recorte_final_idx(s@.skip(i as int), j - i);
        }
        assert(s@.skip(i as int).take(j - i) =~= s@.subrange(i as int, j as int));
    }
    s.substring_char(i, j).to_owned()
}

/// Trim plus Unicode lowercasing: computes the normal form of a raw
/// identifier. Re-normalizing the result changes nothing.
pub fn normalizar_texto(s: &str) -> (r: String)
    ensures
        r@ == normalizar(s@),
        normalizar(r@) == r@,
{
    let len = s.unicode_len();
    let mut i: usize = 0;
    while i < len && es_blanco_exec(s.get_char(i))
        invariant
            0 <= i <= len,
            len == s@.len(),
            forall|k: int| 0 <= k < i ==> es_blanco(s@[k]),
        decreases len - i,
    {
        i += 1;
    }
    let mut j: usize = len;
    while j > i && es_blanco_exec(s.get_char(j - 1))
        invariant
            i <= j <= len,
            len == s@.len(),
            forall|k: int| j <= k < len ==> es_blanco(s@[k]),
        decreases j,
    {
        j -= 1;
    }
    proof {
        lemma_recorte_inicio_idx(s@, i as int);
        if j == i {
            lemma_recorte_final_idx(s@.skip(i as int), 0);
        } else {
            lemma_recorte_final_idx(s@.skip(i as int), j - i);
        }
        assert(s@.skip(i as int).take(j - i) =~= s@.subrange(i as int, j as int));
        assert(recortar(s@) == s@.subrange(i as int, j as int));
    }
    let recortado = s.substring_char(i, j);
    let norm = a_minusculas(recortado);
    proof {
        if norm@.len() > 0 {
            assert(recortado@.len() > 0);
            assert(recortado@[0] == s@[i as int]);
            assert(recortado@.last() == s@[j - 1]);
            assert(!es_blanco(norm@[0]) && !es_blanco(norm@.last()));
        }
        lemma_recortar_fijo(norm@);
        assert(normalizar(norm@) == norm@);
    }
    norm
}

/// A validated identifier, held in its normal form.
#[derive(Debug, Clone)]
pub struct ModelName(String);

impl View for ModelName {
    type V = Seq<char>;

    closed spec fn view(&self) -> Seq<char> {
        self.0@
    }
}

impl ModelName {
    /// Normalizes the raw identifier and accepts it only if the normal form
    /// is a valid identifier; the error says which rule was broken. An
    /// accepted identifier is already in normal form: re-normalizing it
    /// changes nothing.
    pub fn new(name: &str) -> (r: Result<ModelName, DomainError>)
        ensures
            match r {
                Ok(m) => es_nombre_valido(normalizar(name@)) && m@ == normalizar(name@)
                    && es_nombre_valido(m@) && normalizar(m@) == m@,
                Err(e) => !es_nombre_valido(normalizar(name@)) && e matches
                    DomainError::InvalidModelName(_),
            },
    {
        let norm = normalizar_texto(name);
        if norm.as_str().is_empty() {
            return Err(DomainError::InvalidModelName("Model name cannot be empty".to_owned()));
        }
        let bytes = norm.as_str().as_bytes_vec();
        if bytes.len() > 100 {
            return Err(DomainError::InvalidModelName("Model name too long".to_owned()));
        }
        let nlen = norm.as_str().unicode_len();
        let mut k: usize = 0;
        while k < nlen
            invariant
                0 <= k <= nlen,
                nlen == norm@.len(),
                norm@ == normalizar(name@),
                normalizar(norm@) == norm@,
                norm@.len() > 0,
                encode_utf8(norm@).len() <= 100,
                forall|t: int| 0 <= t < k ==> es_permitido(norm@[t]),
            decreases nlen - k,
        {
            let c = norm.as_str().get_char(k);
            if !(c.is_alphanumeric() || c == '_' || c == '-') {
                return Err(
                    DomainError::InvalidModelName(
                        "Model name contains invalid characters".to_owned(),
                    ),
                );
            }
            k += 1;
        }
        Ok(ModelName(norm))
    }

    /// The normal form the identifier was accepted under.
    pub fn as_str(&self) -> (r: &str)
        ensures
            r@ == self@,
    {
        self.0.as_str()
    }
}

proof fn lemma_recorte_inicio_sin_blanco(s: Seq<char>)
    ensures
        recorte_inicio(s).len() > 0 ==> !es_blanco(recorte_inicio(s)[0]),
    decreases s.len(),
{
    if s.len() > 0 && es_blanco(s[0]) {
        lemma_recorte_inicio_sin_blanco(s.drop_first());
    }
}

proof fn lemma_recorte_final_props(s: Seq<char>)
    ensures
        recorte_final(s).len() <= s.len(),
        forall|k: int| 0 <= k < recorte_final(s).len() ==> recorte_final(s)[k] == s[k],
        recorte_final(s).len() > 0 ==> !es_blanco(recorte_final(s).last()),
    decreases s.len(),
{
    if s.len() > 0 && es_blanco(s.last()) {
        lemma_recorte_final_props(s.drop_last());
        assert forall|k: int| 0 <= k < recorte_final(s).len() implies recorte_final(s)[k] == s[k] by {
            assert(recorte_final(s)[k] == s.drop_last()[k]);
        }
    }
}

/// A sequence without whitespace at either end is its own trim.
proof fn lemma_recortar_fijo(s: Seq<char>)
    requires
        s.len() == 0 || (!es_blanco(s[0]) && !es_blanco(s.last())),
    ensures
        recortar(s) == s,
{
    lemma_recorte_inicio_idx(s, 0);
    assert(s.skip(0) =~= s);
    lemma_recorte_final_idx(s, s.len() as int);
    assert(s.take(s.len() as int) =~= s);
}

/// Trimming an already-trimmed text changes nothing.
pub proof fn lemma_recortar_idempotente(s: Seq<char>)
    ensures
        recortar(recortar(s)) == recortar(s),
{
    lemma_recorte_inicio_sin_blanco(s);
    lemma_recorte_final_props(recorte_inicio(s));
    lemma_recortar_fijo(recortar(s));
}

/// Identifiers with the same normal form — case or whitespace variants of
/// one another — are accepted or rejected together.
pub proof fn lemma_variantes_mismo_destino(a: Seq<char>, b: Seq<char>)
    requires
        normalizar(a) == normalizar(b),
    ensures
        es_nombre_valido(normalizar(a)) <==> es_nombre_valido(normalizar(b)),
{
}

proof fn lemma_recorte_inicio_todo_blanco(s: Seq<char>)
    requires
        forall|k: int| 0 <= k < s.len() ==> es_blanco(s[k]),
    ensures
        recorte_inicio(s) == Seq::<char>::empty(),
    decreases s.len(),
{
    if s.len() > 0 {
        lemma_recorte_inicio_todo_blanco(s.drop_first());
    } else {
        assert(s =~= Seq::<char>::empty());
    }
}

proof fn lemma_recorte_inicio_prefijo_blanco(pre: Seq<char>, s: Seq<char>)
    requires
        forall|k: int| 0 <= k < pre.len() ==> es_blanco(pre[k]),
    ensures
        recorte_inicio(pre + s) == recorte_inicio(s),
    decreases pre.len(),
{
    if pre.len() == 0 {
        assert(pre + s =~= s);
    } else {
        assert((pre + s).drop_first() =~= pre.drop_first() + s);
        lemma_recorte_inicio_prefijo_blanco(pre.drop_first(), s);
    }
}

proof fn lemma_recorte_final_sufijo_blanco(s: Seq<char>, post: Seq<char>)
    requires
        forall|k: int| 0 <= k < post.len() ==> es_blanco(post[k]),
    ensures
        recorte_final(s + post) == recorte_final(s),
    decreases post.len(),
{
    if post.len() == 0 {
        assert(s + post =~= s);
    } else {
        assert((s + post).drop_last() =~= s + post.drop_last());
        lemma_recorte_final_sufijo_blanco(s, post.drop_last());
    }
}

proof fn lemma_recorte_inicio_concat(s: Seq<char>, y: Seq<char>)
    ensures
        recorte_inicio(s + y) == if recorte_inicio(s).len() > 0 {
            recorte_inicio(s) + y
        } else {
            recorte_inicio(y)
        },
    decreases s.len(),
{
    if s.len() == 0 {
        assert(s + y =~= y);
    } else if es_blanco(s[0]) {
        assert((s + y).drop_first() =~= s.drop_first() + y);
        lemma_recorte_inicio_concat(s.drop_first(), y);
    } else {
        assert(recorte_inicio(s) == s);
        assert((s + y)[0] == s[0]);
    }
}

/// Whitespace padding around an identifier does not change its normal form.
pub proof fn lemma_normalizar_relleno(pre: Seq<char>, s: Seq<char>, post: Seq<char>)
    requires
        forall|k: int| 0 <= k < pre.len() ==> es_blanco(pre[k]),
        forall|k: int| 0 <= k < post.len() ==> es_blanco(post[k]),
    ensures
        normalizar(pre + s + post) == normalizar(s),
{
    assert(pre + s + post =~= pre + (s + post));
    lemma_recorte_inicio_prefijo_blanco(pre, s + post);
    lemma_recorte_inicio_concat(s, post);
    if recorte_inicio(s).len() > 0 {
        lemma_recorte_final_sufijo_blanco(recorte_inicio(s), post);
    } else {
        lemma_recorte_inicio_todo_blanco(post);
        assert(recortar(pre + s + post) =~= recortar(s));
    }
}

} // verus!
