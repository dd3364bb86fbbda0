//! HTTP Basic Auth: recovering the username and password from an
//! `Authorization` header.
//!
//! The accepted shape is optional whitespace, the word `Basic`, at least
//! one whitespace character, then the credential token: everything up to
//! the trailing whitespace, refused if it spans a line break.  The token is
//! standard base64 for `user:password`, split at the first `:`.

use vstd::prelude::*;

use crate::util::{char_is_whitespace, is_unicode_whitespace, spec_find_first, spec_find_last,
    lemma_find_first_char, lemma_find_last_char};
use vstd::utf8::{decode_utf8, valid_utf8};

verus! {

/// What the standard base64 alphabet decodes a string to, if it decodes at
/// all.
pub uninterp spec fn base64_standard_decode(s: Seq<char>) -> Option<Seq<u8>>;

/// Relies on base64's `STANDARD` engine `decode`: the result depends on
/// the input alone.
#[verifier::external_body]
fn b64_decode(s: &str) -> (r: Option<Vec<u8>>)
    ensures
        r is Some <==> base64_standard_decode(s@) is Some,
        r matches Some(v) ==> base64_standard_decode(s@) == Some(v@),
{
    match base64::Engine::decode(&base64::prelude::BASE64_STANDARD, s) {
        Ok(v) => Some(v),
        Err(_) => None,
    }
}

/// Relies on `String::from_utf8`: it succeeds exactly on valid UTF-8 and
/// yields the characters the bytes encode.
#[verifier::external_body]
fn utf8_to_string(v: Vec<u8>) -> (r: Option<String>)
    ensures
        r is Some <==> valid_utf8(v@),
        r matches Some(s) ==> s@ == decode_utf8(v@),
{
    match String::from_utf8(v) {
        Ok(s) => Some(s),
        Err(_) => None,
    }
}

/// Whether a character is not whitespace.
pub open spec fn non_ws() -> spec_fn(char) -> bool {
    |c: char| !is_unicode_whitespace(c)
}

/// The credential token of a `Basic` authorization header: the text
/// between the whitespace after the keyword and the trailing whitespace.
/// `None` when the header does not have that shape, or when the token
/// would span a line break.
pub open spec fn spec_basic_token(s: Seq<char>) -> Option<Seq<char>> {
    match spec_find_first(s, non_ws()) {
        None => None,
        Some(i0) => if i0 + 5 <= s.len() && s.subrange(i0, i0 + 5) == seq!['B', 'a', 's', 'i', 'c']
            && i0 + 5 < s.len() && is_unicode_whitespace(s[i0 + 5]) {
            match spec_find_first(s.skip(i0 + 6), non_ws()) {
                None => None,
                Some(d) => {
                    let t0 = i0 + 6 + d;
                    match spec_find_last(s, non_ws()) {
                        None => None,
                        Some(last) => {
                            let t1 = last + 1;
                            if forall|k: int| t0 <= k < t1 ==> s[k] != '\n' {
                                Some(s.subrange(t0, t1))
                            } else {
                                None
                            }
                        },
                    }
                },
            }
        } else {
            None
        },
    }
}

/// A character sequence split at its first `:`.
pub open spec fn spec_split_first_colon(s: Seq<char>) -> Option<(Seq<char>, Seq<char>)> {
    match spec_find_first(s, |c: char| c == ':') {
        None => None,
        Some(i) => Some((s.take(i), s.skip(i + 1))),
    }
}

/// What an `Authorization` header yields: the token extracted, decoded as
/// base64, read as UTF-8, and split at the first `:` into username and
/// password.  Failure of any step refuses the header.
pub open spec fn spec_basic_auth_parse(header: Seq<char>) -> Option<(Seq<char>, Seq<char>)> {
    match spec_basic_token(header) {
        None => None,
        Some(tok) => match base64_standard_decode(tok) {
            None => None,
            Some(bytes) => if !valid_utf8(bytes) {
                None
            } else {
                spec_split_first_colon(decode_utf8(bytes))
            },
        },
    }
}

/// The Basic Auth parser.
pub struct HttpBasicAuth {}

impl HttpBasicAuth {
    /// Builds the parser.
    pub fn new() -> (r: HttpBasicAuth) {
        HttpBasicAuth {  }
    }

    /// Recovers `(username, password)` from an `Authorization` header; see
    /// [`spec_basic_auth_parse`].
    pub fn parse(&self, auth_header: &str) -> (r: Option<(String, String)>)
        ensures
            match (r, spec_basic_auth_parse(auth_header@)) {
                (Some(p), Some(q)) => p.0@ == q.0 && p.1@ == q.1,
                (None, None) => true,
                _ => false,
            },
    {
        let n = auth_header.unicode_len();
        proof {
            lemma_find_first_char(auth_header@, non_ws());
        }
        // Skip the leading whitespace.
        let mut i0: usize = 0;
        while i0 < n && char_is_whitespace(auth_header.get_char(i0))
            invariant
                i0 <= n,
                n == auth_header@.len(),
                forall|j: int| 0 <= j < i0 ==> is_unicode_whitespace(#[trigger] auth_header@[j]),
            decreases n - i0,
        {
            i0 = i0 + 1;
        }
        if i0 == n {
            proof {
                if spec_find_first(auth_header@, non_ws()) is Some {
                    let w = spec_find_first(auth_header@, non_ws())->Some_0;
                    assert(!is_unicode_whitespace(auth_header@[w]));
                }
            }
            return None;
        }
        proof {
            assert(spec_find_first(auth_header@, non_ws()) == Some(i0 as int)) by {
                match spec_find_first(auth_header@, non_ws()) {
                    Some(w) => {
                        if w < i0 {
                            assert(is_unicode_whitespace(auth_header@[w]));
                        }
                        if w > i0 {
                            assert(!is_unicode_whitespace(auth_header@[i0 as int]));
                        }
                    },
                    None => {
                        assert(!is_unicode_whitespace(auth_header@[i0 as int]));
                    },
                }
            }
        }
        // The keyword, then at least one whitespace character.
        if n - i0 < 6 {
            return None;
        }
        let kw_ok = auth_header.get_char(i0) == 'B' && auth_header.get_char(i0 + 1) == 'a'
            && auth_header.get_char(i0 + 2) == 's' && auth_header.get_char(i0 + 3) == 'i'
            && auth_header.get_char(i0 + 4) == 'c';
        if !kw_ok {
            proof {
                assert(auth_header@.subrange(i0 as int, i0 + 5 as int) != seq![
                    'B',
                    'a',
                    's',
                    'i',
                    'c',
                ]) by {
                    let sub = auth_header@.subrange(i0 as int, i0 + 5 as int);
                    let lit = seq!['B', 'a', 's', 'i', 'c'];
                    if sub == lit {
                        assert(sub[0] == 'B' && sub[1] == 'a' && sub[2] == 's' && sub[3] == 'i'
                            && sub[4] == 'c');
                    }
                }
            }
            return None;
        }
        proof {
            assert(auth_header@.subrange(i0 as int, i0 + 5 as int) =~= seq![
                'B',
                'a',
                's',
                'i',
                'c',
            ]);
        }
        if !char_is_whitespace(auth_header.get_char(i0 + 5)) {
            return None;
        }
        // The token starts at the first non-whitespace character after the
        // keyword's separator.
        let ghost tail = auth_header@.skip(i0 + 6);
        proof {
            lemma_find_first_char(tail, non_ws());
            assert forall|j: int| 0 <= j < tail.len() implies tail[j] == auth_header@[i0 + 6
                + j] by {}
        }
        let mut t0: usize = i0 + 6;
        while t0 < n && char_is_whitespace(auth_header.get_char(t0))
            invariant
                i0 + 6 <= t0 <= n,
                n == auth_header@.len(),
                forall|j: int|
                    i0 + 6 <= j < t0 ==> is_unicode_whitespace(#[trigger] auth_header@[j]),
            decreases n - t0,
        {
            t0 = t0 + 1;
        }
        if t0 == n {
            proof {
                if spec_find_first(tail, non_ws()) is Some {
                    let d = spec_find_first(tail, non_ws())->Some_0;
                    assert(!is_unicode_whitespace(tail[d]));
                    assert(tail[d] == auth_header@[i0 + 6 + d]);
                }
            }
            return None;
        }
        proof {
            assert(spec_find_first(tail, non_ws()) == Some(t0 - i0 - 6)) by {
                match spec_find_first(tail, non_ws()) {
                    Some(d) => {
                        if i0 + 6 + d < t0 {
                            assert(is_unicode_whitespace(tail[d]));
                        }
                        if i0 + 6 + d > t0 {
                            assert(!is_unicode_whitespace(tail[t0 - i0 - 6]));
                        }
                    },
                    None => {
                        assert(!is_unicode_whitespace(tail[t0 - i0 - 6]));
                    },
                }
            }
        }
        // The token ends after the last non-whitespace character.
        proof {
            lemma_find_last_char(auth_header@, non_ws());
        }
        let mut t1: usize = n;
        while t1 > t0 && char_is_whitespace(auth_header.get_char(t1 - 1))
            invariant
                t0 <= t1 <= n,
                n == auth_header@.len(),
                forall|j: int| t1 <= j < n ==> is_unicode_whitespace(#[trigger] auth_header@[j]),
            decreases t1,
        {
            t1 = t1 - 1;
        }
        proof {
            assert(spec_find_last(auth_header@, non_ws()) == Some(t1 - 1)) by {
                assert(!is_unicode_whitespace(auth_header@[t0 as int]));
                match spec_find_last(auth_header@, non_ws()) {
                    Some(last) => {
                        if last < t1 - 1 {
                            assert(!is_unicode_whitespace(auth_header@[t1 - 1]));
                        }
                        if last > t1 - 1 {
                            assert(is_unicode_whitespace(auth_header@[last]));
                        }
                    },
                    None => {
                        assert(!is_unicode_whitespace(auth_header@[t0 as int]));
                    },
                }
            }
        }
        // The token must not span a line break.
        let mut k: usize = t0;
        while k < t1 && auth_header.get_char(k) != '\n'
            invariant
                t0 <= k <= t1 <= n,
                n == auth_header@.len(),
                forall|j: int| t0 <= j < k ==> #[trigger] auth_header@[j] != '\n',
            decreases t1 - k,
        {
            k = k + 1;
        }
        if k < t1 {
            return None;
        }
        let token = auth_header.substring_char(t0, t1);
        proof {
            assert(token@ =~= auth_header@.subrange(t0 as int, t1 as int));
        }
        // Decode the credential.
        let decoded = match b64_decode(token) {
            Some(v) => v,
            None => {
                return None;
            },
        };
        let userpass = match utf8_to_string(decoded) {
            Some(s) => s,
            None => {
                return None;
            },
        };
        // Split at the first `:`.
        let m = userpass.as_str().unicode_len();
        proof {
            lemma_find_first_char(userpass@, |c: char| c == ':');
        }
        let mut ci: usize = 0;
        while ci < m && userpass.as_str().get_char(ci) != ':'
            invariant
                ci <= m,
                m == userpass@.len(),
                forall|j: int| 0 <= j < ci ==> #[trigger] userpass@[j] != ':',
            decreases m - ci,
        {
            ci = ci + 1;
        }
        if ci == m {
            proof {
                if spec_find_first(userpass@, |c: char| c == ':') is Some {
                    let w = spec_find_first(userpass@, |c: char| c == ':')->Some_0;
                }
            }
            return None;
        }
        proof {
            assert(spec_find_first(userpass@, |c: char| c == ':') == Some(ci as int)) by {
                match spec_find_first(userpass@, |c: char| c == ':') {
                    Some(w) => {
                        if w > ci {
                            assert(userpass@[ci as int] != ':');
                        }
                    },
                    None => {
                        assert(userpass@[ci as int] != ':');
                    },
                }
            }
        }
        let user = userpass.as_str().substring_char(0, ci).to_owned();
        let pass = userpass.as_str().substring_char(ci + 1, m).to_owned();
        proof {
            assert(user@ =~= userpass@.take(ci as int));
            assert(pass@ =~= userpass@.skip(ci + 1 as int));
        }
        Some((user, pass))
    }
}

} // verus!
