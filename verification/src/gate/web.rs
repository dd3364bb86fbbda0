//! The data handled by a gate's web control: the form or JSON body that
//! flips it open or closed, the state reported back, and the HTML escaping used when
//! that state is rendered for a browser.  The HTTP and TLS plumbing lives
//! with the runtime around the library.

use vstd::prelude::*;

use crate::error::WuffError;
use crate::util::LiteralOrFile;

verus! {

/// A gate's web control configuration.
#[derive(Debug)]
pub struct ConfigGateWeb {
    pub listen_on: Vec<String>,
    pub certificate_chain: LiteralOrFile,
    pub private_key: LiteralOrFile,
    pub users: Vec<(String, String)>,
}

/// The decoded request: open or close, and an optional name hint.
#[derive(Debug)]
pub struct GateWebAppArgs {
    pub open: bool,
    pub name_hint: Option<String>,
}

/// The request as a browser form sends it: the submit button's label and
/// the hint field's raw text.
#[derive(Debug)]
pub struct GateWebAppArgsCgi {
    pub open: String,
    pub name_hint: Option<String>,
}

/// What the control reports back after a request.
#[derive(Debug)]
pub struct GateWebAppResponse {
    pub error: Option<String>,
    pub open: bool,
    pub name_hint: Option<String>,
    pub next_change_time: Option<u64>,
}

use crate::util::{char_is_whitespace, is_unicode_whitespace};

/// Whether a string is nothing but whitespace.
pub open spec fn spec_blank(s: Seq<char>) -> bool {
    forall|i: int| 0 <= i < s.len() ==> is_unicode_whitespace(#[trigger] s[i])
}

fn is_blank(s: &str) -> (r: bool)
    ensures
        r == spec_blank(s@),
{
    let n = s.unicode_len();
    let mut i: usize = 0;
    while i < n
        invariant
            i <= n,
            n == s@.len(),
            forall|k: int| 0 <= k < i ==> is_unicode_whitespace(#[trigger] s@[k]),
        decreases n - i,
    {
        if !char_is_whitespace(s.get_char(i)) {
            return false;
        }
        i = i + 1;
    }
    true
}

impl GateWebAppArgs {
    /// Decodes a form submission: the button is `Locked` or `Unlocked`, and
    /// a hint that is empty or nothing but whitespace counts as absent.
    /// Any other button label is refused.
    pub fn try_from_cgi(cgi: GateWebAppArgsCgi) -> (r: Result<GateWebAppArgs, WuffError>)
        ensures
            match r {
                Ok(args) => {
                    &&& (cgi.open@ == "Locked"@ && !args.open) || (cgi.open@ == "Unlocked"@
                        && args.open)
                    &&& args.name_hint == (match cgi.name_hint {
                        Some(h) => if spec_blank(h@) {
                            None
                        } else {
                            Some(h)
                        },
                        None => None::<String>,
                    })
                },
                Err(_) => cgi.open@ != "Locked"@ && cgi.open@ != "Unlocked"@,
            },
    {
        let open: bool = if crate::util::str_eq(cgi.open.as_str(), "Locked") {
            false
        } else if crate::util::str_eq(cgi.open.as_str(), "Unlocked") {
            true
        } else {
            return Err(WuffError::new("Invalid \"open\" value"));
        };
        let name_hint: Option<String> = match cgi.name_hint {
            Some(h) => if is_blank(h.as_str()) {
                None
            } else {
                Some(h)
            },
            None => None,
        };
        Ok(GateWebAppArgs { open, name_hint })
    }
}

/// What one character renders as in HTML text: the four markup characters
/// become entities, everything else stands as it is.
pub open spec fn spec_escape_char(c: char) -> Seq<char> {
    if c == '&' {
        seq!['&', 'a', 'm', 'p', ';']
    } else if c == '"' {
        seq!['&', 'q', 'u', 'o', 't', ';']
    } else if c == '<' {
        seq!['&', 'l', 't', ';']
    } else if c == '>' {
        seq!['&', 'g', 't', ';']
    } else {
        seq![c]
    }
}

/// A string rendered as HTML text, character by character.
pub open spec fn spec_html_escape(s: Seq<char>) -> Seq<char>
    decreases s.len(),
{
    if s.len() == 0 {
        Seq::<char>::empty()
    } else {
        spec_html_escape(s.drop_last()) + spec_escape_char(s.last())
    }
}

impl GateWebAppResponse {
    /// Appends `s` to `page` with the HTML markup characters escaped.
    pub fn html_escape(page: &mut String, s: &str)
        ensures
            final(page)@ == old(page)@ + spec_html_escape(s@),
    {
        let n = s.unicode_len();
        let mut i: usize = 0;
        while i < n
            invariant
                i <= n,
                n == s@.len(),
                page@ == old(page)@ + spec_html_escape(s@.take(i as int)),
            decreases n - i,
        {
            let c = s.get_char(i);
            match c {
                '&' => page.append("&amp;"),
                '"' => page.append("&quot;"),
                '<' => page.append("&lt;"),
                '>' => page.append("&gt;"),
                _ => crate::util::push_char(page, c),
            }
            proof {
                reveal_strlit("&amp;");
                reveal_strlit("&quot;");
                reveal_strlit("&lt;");
                reveal_strlit("&gt;");
                assert(s@.take(i + 1 as int).drop_last() =~= s@.take(i as int));
                assert(s@.take(i + 1 as int).last() == s@[i as int]);
                assert(page@ =~= old(page)@ + spec_html_escape(s@.take(i + 1 as int)));
            }
            i = i + 1;
        }
        proof {
            assert(s@.take(n as int) =~= s@);
        }
    }
}

} // verus!
