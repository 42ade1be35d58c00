//! Validated stream endpoints.
//!
//! A stream URL is accepted when, after trimming whitespace at both ends,
//! it is nonempty and absolute under the `http` or `https` scheme. The
//! value is held trimmed and never changes.

use crate::errors::DomainError;
use crate::model_name::recortar;
use crate::model_name::recortar_texto;
use vstd::prelude::*;
use vstd::string::StrSliceExecFns;

verus! {

pub open spec fn empieza_con_c(s: Seq<char>, p: Seq<char>) -> bool {
    s.len() >= p.len() && s.take(p.len() as int) == p
}

/// A trimmed URL is acceptable when it carries one of the two schemes.
pub open spec fn es_url_valida(s: Seq<char>) -> bool {
    empieza_con_c(s, "http://"@) || empieza_con_c(s, "https://"@)
}

fn tiene_prefijo_http(s: &str) -> (r: bool)
    ensures
        r == es_url_valida(s@),
{
    proof {
        reveal_strlit("http://");
        reveal_strlit("https://");
    }
    let len = s.unicode_len();
    let http = len >= 7 && s.get_char(0) == 'h' && s.get_char(1) == 't' && s.get_char(2) == 't'
        && s.get_char(3) == 'p' && s.get_char(4) == ':' && s.get_char(5) == '/' && s.get_char(6)
        == '/';
    let https = len >= 8 && s.get_char(0) == 'h' && s.get_char(1) == 't' && s.get_char(2) == 't'
        && s.get_char(3) == 'p' && s.get_char(4) == 's' && s.get_char(5) == ':' && s.get_char(6)
        == '/' && s.get_char(7) == '/';
    proof {
        if http {
            assert(s@.take(7) =~= "http://"@);
        }
        if https {
            assert(s@.take(8) =~= "https://"@);
        }
        if s@.len() >= 7 && s@.take(7) == "http://"@ {
            assert forall|k: int| 0 <= k < 7 implies s@[k] == "http://"@[k] by {
                assert(s@.take(7)[k] == s@[k]);
            }
        }
        if s@.len() >= 8 && s@.take(8) == "https://"@ {
            assert forall|k: int| 0 <= k < 8 implies s@[k] == "https://"@[k] by {
                assert(s@.take(8)[k] == s@[k]);
            }
        }
    }
    http || https
}

/// A validated stream endpoint, held trimmed.
#[derive(Debug, Clone)]
pub struct StreamUrl(String);

impl View for StreamUrl {
    type V = Seq<char>;

    closed spec fn view(&self) -> Seq<char> {
        self.0@
    }
}

impl StreamUrl {
    /// An accepted endpoint is valid and already trimmed.
    pub open spec fn bien_formada(&self) -> bool {
        es_url_valida(self@) && recortar(self@) == self@
    }

    /// Trims the raw URL and accepts it only under the `http` or `https`
    /// scheme; the error says whether it was empty or carried no scheme.
    pub fn new(url: &str) -> (r: Result<StreamUrl, DomainError>)
        ensures
            match r {
                Ok(u) => es_url_valida(recortar(url@)) && u@ == recortar(url@)
                    && u.bien_formada(),
                Err(e) => !es_url_valida(recortar(url@)) && e matches
                    DomainError::InvalidStreamUrl(_),
            },
    {
        let t = recortar_texto(url);
        if t.as_str().is_empty() {
            proof {
                reveal_strlit("http://");
                reveal_strlit("https://");
            }
            return Err(DomainError::InvalidStreamUrl("URL cannot be empty".to_owned()));
        }
        if !tiene_prefijo_http(t.as_str()) {
            return Err(
                DomainError::InvalidStreamUrl(
                    "URL must start with http:// or https://".to_owned(),
                ),
            );
        }
        proof {
            crate::model_name::lemma_recortar_idempotente(url@);
        }
        Ok(StreamUrl(t))
    }

    /// The trimmed URL the endpoint was accepted under.
    pub fn as_str(&self) -> (r: &str)
        ensures
            r@ == self@,
    {
        self.0.as_str()
    }

    /// A copy of the endpoint holding the same URL.
    pub fn duplicar(&self) -> (r: StreamUrl)
        ensures
            r@ == self@,
    {
        StreamUrl(self.0.clone())
    }
}

} // verus!
