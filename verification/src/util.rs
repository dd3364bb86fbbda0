//! Small shared pieces: configuration value sources, the blob-store
//! coordinates, string helpers, and the timestamp format used in blob names.

use vstd::prelude::*;

use crate::error::WuffError;

verus! {

/// A configuration value given either literally or as the name of an
/// environment variable to read at startup.
#[derive(Debug, Clone)]
pub enum LiteralOrEnvironmentVariable {
    Literal(String),
    EnvironmentVariable { env: String },
}

/// A configuration value given either literally or as the path of a file to
/// read at startup.
#[derive(Debug, Clone)]
pub enum LiteralOrFile {
    Literal(String),
    File { file: String },
}

/// Where uploads of one destination land: a storage account, a container in
/// it, the credential presented to the store, and a fixed name prefix.
#[derive(Debug, Clone)]
pub struct BlobStorageSpec {
    pub storage_account: String,
    pub container: String,
    pub sas: LiteralOrEnvironmentVariable,
    pub prefix: String,
}

/// Whether a character counts as whitespace; what `char::is_whitespace`
/// answers.
pub uninterp spec fn is_unicode_whitespace(c: char) -> bool;

/// Relies on `char::is_whitespace`: the answer depends on the character
/// alone.
#[verifier::external_body]
pub(crate) fn char_is_whitespace(c: char) -> (r: bool)
    ensures
        r == is_unicode_whitespace(c),
{
    c.is_whitespace()
}

/// The position of the first character satisfying `p`, if any.
pub open spec fn spec_find_first(s: Seq<char>, p: spec_fn(char) -> bool) -> Option<int>
    decreases s.len(),
{
    if s.len() == 0 {
        None
    } else if p(s[0]) {
        Some(0int)
    } else {
        match spec_find_first(s.drop_first(), p) {
            Some(i) => Some(i + 1),
            None => None,
        }
    }
}

/// The position of the last character satisfying `p`, if any.
pub open spec fn spec_find_last(s: Seq<char>, p: spec_fn(char) -> bool) -> Option<int>
    decreases s.len(),
{
    if s.len() == 0 {
        None
    } else if p(s.last()) {
        Some(s.len() - 1)
    } else {
        spec_find_last(s.drop_last(), p)
    }
}

pub proof fn lemma_find_first_char(s: Seq<char>, p: spec_fn(char) -> bool)
    ensures
        match spec_find_first(s, p) {
            Some(i) => 0 <= i < s.len() && p(s[i]) && (forall|j: int| 0 <= j < i ==> !p(s[j])),
            None => forall|j: int| 0 <= j < s.len() ==> !p(s[j]),
        },
    decreases s.len(),
{
    if s.len() > 0 && !p(s[0]) {
        lemma_find_first_char(s.drop_first(), p);
        match spec_find_first(s.drop_first(), p) {
            Some(i) => {
                assert(s.drop_first()[i] == s[i + 1]);
                assert(p(s[i + 1]));
                assert forall|j: int| 0 <= j < i + 1 implies !p(s[j]) by {
                    if j > 0 {
                        assert(!p(s.drop_first()[j - 1]));
                        assert(s.drop_first()[j - 1] == s[j]);
                    }
                }
            },
            None => {
                assert forall|j: int| 0 <= j < s.len() implies !p(s[j]) by {
                    if j > 0 {
                        assert(!p(s.drop_first()[j - 1]));
                        assert(s.drop_first()[j - 1] == s[j]);
                    }
                }
            },
        }
    }
}

pub proof fn lemma_find_last_char(s: Seq<char>, p: spec_fn(char) -> bool)
    ensures
        match spec_find_last(s, p) {
            Some(i) => 0 <= i < s.len() && p(s[i]) && (forall|j: int| i < j < s.len() ==> !p(s[j])),
            None => forall|j: int| 0 <= j < s.len() ==> !p(s[j]),
        },
    decreases s.len(),
{
    if s.len() > 0 && !p(s.last()) {
        lemma_find_last_char(s.drop_last(), p);
        match spec_find_last(s.drop_last(), p) {
            Some(i) => {
                assert(s.drop_last()[i] == s[i]);
                assert(p(s[i]));
                assert forall|j: int| i < j < s.len() implies !p(s[j]) by {
                    if j < s.len() - 1 {
                        assert(!p(s.drop_last()[j]));
                        assert(s.drop_last()[j] == s[j]);
                    }
                }
            },
            None => {
                assert forall|j: int| 0 <= j < s.len() implies !p(s[j]) by {
                    if j < s.len() - 1 {
                        assert(!p(s.drop_last()[j]));
                        assert(s.drop_last()[j] == s[j]);
                    }
                }
            },
        }
    }
}

/// Relies on `String::push`: appends exactly the one character.
#[verifier::external_body]
pub fn push_char(s: &mut String, c: char)
    ensures
        final(s)@ == old(s)@ + seq![c],
{
    s.push(c)
}

/// Whether two strings hold the same characters.
pub fn str_eq(a: &str, b: &str) -> (r: bool)
    ensures
        r == (a@ == b@),
{
    let sa = a.to_owned();
    let sb = b.to_owned();
    sa == sb
}

/// The last instant jiff can place on the calendar, in seconds since the
/// epoch.
pub const MAX_EPOCH_SECOND: u64 = 253402207200;

/// The RFC 3339 rendering of a whole second on the UTC timeline, as
/// `YYYY-MM-DDTHH:MM:SSZ`.
pub uninterp spec fn rfc3339_zulu_of(second: u64) -> Seq<char>;

/// Relies on `jiff::Timestamp::from_second` and jiff's `Display`: a
/// whole-second timestamp in range prints as `YYYY-MM-DDTHH:MM:SSZ`, 20
/// ASCII characters ending in `Z`.
#[verifier::external_body]
fn format_epoch_second(second: u64) -> (r: String)
    requires
        second <= MAX_EPOCH_SECOND,
    ensures
        r@ == rfc3339_zulu_of(second),
        r@.len() == 20,
        r@[19] == 'Z',
        r.is_ascii(),
{
    let ts = jiff::Timestamp::from_second(second as i64).unwrap();
    format!("{}", ts)
}

/// The character for a single decimal digit.
pub open spec fn spec_digit(d: int) -> char {
    if d == 0 {
        '0'
    } else if d == 1 {
        '1'
    } else if d == 2 {
        '2'
    } else if d == 3 {
        '3'
    } else if d == 4 {
        '4'
    } else if d == 5 {
        '5'
    } else if d == 6 {
        '6'
    } else if d == 7 {
        '7'
    } else if d == 8 {
        '8'
    } else {
        '9'
    }
}

fn digit_str(d: u32) -> (r: &'static str)
    requires
        d < 10,
    ensures
        r@ == seq![spec_digit(d as int)],
{
    let r = match d {
        0 => "0",
        1 => "1",
        2 => "2",
        3 => "3",
        4 => "4",
        5 => "5",
        6 => "6",
        7 => "7",
        8 => "8",
        _ => "9",
    };
    proof {
        reveal_strlit("0");
        reveal_strlit("1");
        reveal_strlit("2");
        reveal_strlit("3");
        reveal_strlit("4");
        reveal_strlit("5");
        reveal_strlit("6");
        reveal_strlit("7");
        reveal_strlit("8");
        reveal_strlit("9");
        assert(r@ =~= seq![spec_digit(d as int)]);
    }
    r
}

/// A millisecond count under one second, as three zero-padded digits.
pub open spec fn spec_millis3(ms: int) -> Seq<char> {
    seq![
        spec_digit(ms / 100 % 10),
        spec_digit(ms / 10 % 10),
        spec_digit(ms % 10),
    ]
}

/// The blob-name timestamp: UTC, millisecond precision,
/// `YYYY-MM-DDTHH:MM:SS.mmmZ`.
pub open spec fn spec_utc_rfc3339(second: u64, millisecond: u32) -> Seq<char> {
    rfc3339_zulu_of(second).take(19) + seq!['.'] + spec_millis3(millisecond as int) + seq!['Z']
}

/// Renders a system time, given as whole seconds since the epoch plus the
/// milliseconds within the second, in the blob-name timestamp format.
pub fn system_time_to_utc_rfc3339(second: u64, millisecond: u32) -> (r: String)
    requires
        second <= MAX_EPOCH_SECOND,
        millisecond < 1000,
    ensures
        r@ == spec_utc_rfc3339(second, millisecond),
{
    let whole = format_epoch_second(second);
    let head = whole.as_str().substring_char(0, 19);
    let mut out = head.to_owned();
    out.append(".");
    out.append(digit_str(millisecond / 100 % 10));
    out.append(digit_str(millisecond / 10 % 10));
    out.append(digit_str(millisecond % 10));
    out.append("Z");
    proof {
        reveal_strlit(".");
        reveal_strlit("Z");
        assert(out@ =~= spec_utc_rfc3339(second, millisecond));
    }
    out
}

} // verus!
