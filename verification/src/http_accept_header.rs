//! The HTTP `Accept` header: which media ranges a client asks for.
//!
//! The header is split at commas; each piece is read as
//! `type "/" subtype`, each side either `*` or a run of characters free of
//! whitespace, `/` and `;`, with whitespace allowed around both, and an
//! optional `;`-led parameter tail that must not span a line break.  A
//! wildcard side is reported as absent; a piece that does not have this
//! shape is skipped.

use vstd::prelude::*;

use crate::util::{char_is_whitespace, is_unicode_whitespace, lemma_find_first_char,
    spec_find_first};

verus! {

/// Whether a character ends a component token: whitespace, the separator,
/// or the parameter delimiter.
pub open spec fn stops_token() -> spec_fn(char) -> bool {
    |c: char| is_unicode_whitespace(c) || c == '/' || c == ';'
}

/// Whether a character is not whitespace.
pub open spec fn not_ws() -> spec_fn(char) -> bool {
    |c: char| !is_unicode_whitespace(c)
}

/// The first position at or after `i` whose character satisfies `stop`, or
/// the length if none does.
pub open spec fn scan_end(s: Seq<char>, i: int, stop: spec_fn(char) -> bool) -> int {
    match spec_find_first(s.skip(i), stop) {
        Some(d) => i + d,
        None => s.len() as int,
    }
}

proof fn lemma_scan_end(s: Seq<char>, i: int, stop: spec_fn(char) -> bool)
    requires
        0 <= i <= s.len(),
    ensures
        i <= scan_end(s, i, stop) <= s.len(),
        forall|j: int| i <= j < scan_end(s, i, stop) ==> !stop(s[j]),
        scan_end(s, i, stop) < s.len() ==> stop(s[scan_end(s, i, stop)]),
{
    lemma_find_first_char(s.skip(i), stop);
    match spec_find_first(s.skip(i), stop) {
        Some(d) => {
            assert(s.skip(i)[d] == s[i + d]);
            assert forall|j: int| i <= j < i + d implies !stop(s[j]) by {
                assert(!stop(s.skip(i)[j - i]));
                assert(s.skip(i)[j - i] == s[j]);
            }
        },
        None => {
            assert forall|j: int| i <= j < s.len() implies !stop(s[j]) by {
                assert(!stop(s.skip(i)[j - i]));
                assert(s.skip(i)[j - i] == s[j]);
            }
        },
    }
}

/// A component as reported: a lone `*` is a wildcard, anything else names
/// a type or subtype.
pub open spec fn spec_wild(c: Seq<char>) -> Option<Seq<char>> {
    if c == seq!['*'] {
        None
    } else {
        Some(c)
    }
}

/// One comma-separated piece read as a media range; `None` when it does
/// not have the accepted shape.
pub open spec fn spec_media_range(seg: Seq<char>) -> Option<(Option<Seq<char>>, Option<Seq<char>>)> {
    let i0 = scan_end(seg, 0, not_ws());
    let e1 = scan_end(seg, i0, stops_token());
    if e1 == i0 {
        None
    } else {
        let comp1 = seg.subrange(i0, e1);
        let j = scan_end(seg, e1, not_ws());
        if j < seg.len() && seg[j] == '/' {
            let k0 = scan_end(seg, j + 1, not_ws());
            let e2 = scan_end(seg, k0, stops_token());
            if e2 == k0 {
                None
            } else {
                let comp2 = seg.subrange(k0, e2);
                let m = scan_end(seg, e2, not_ws());
                if m == seg.len() {
                    Some((spec_wild(comp1), spec_wild(comp2)))
                } else if seg[m] == ';' && (forall|x: int|
                    m < x < seg.len() ==> seg[x] != '\n') {
                    Some((spec_wild(comp1), spec_wild(comp2)))
                } else {
                    None
                }
            }
        } else {
            None
        }
    }
}

/// The header split at commas; a header without commas is one piece.
pub open spec fn spec_split_commas(s: Seq<char>) -> Seq<Seq<char>>
    decreases s.len(),
{
    match spec_find_first(s, |c: char| c == ',') {
        None => seq![s],
        Some(i) => if 0 <= i < s.len() {
            seq![s.take(i)] + spec_split_commas(s.skip(i + 1))
        } else {
            seq![s]
        },
    }
}

/// The media ranges of a sequence of pieces, in order, skipping pieces
/// without the accepted shape.
pub open spec fn spec_accept_items(segs: Seq<Seq<char>>) -> Seq<
    (Option<Seq<char>>, Option<Seq<char>>),
>
    decreases segs.len(),
{
    if segs.len() == 0 {
        Seq::empty()
    } else {
        match spec_media_range(segs[0]) {
            Some(p) => seq![p] + spec_accept_items(segs.drop_first()),
            None => spec_accept_items(segs.drop_first()),
        }
    }
}

/// What an `Accept` header lists.
pub open spec fn spec_accept_parse(s: Seq<char>) -> Seq<(Option<Seq<char>>, Option<Seq<char>>)> {
    spec_accept_items(spec_split_commas(s))
}

/// An entry of the result, viewed as character sequences.
pub open spec fn pair_view(p: (Option<String>, Option<String>)) -> (
    Option<Seq<char>>,
    Option<Seq<char>>,
) {
    (
        (match p.0 {
            Some(s) => Some(s@),
            None => None,
        }),
        (match p.1 {
            Some(s) => Some(s@),
            None => None,
        }),
    )
}

/// The position of the first character satisfying the stop condition used
/// by the executable scanners: whitespace handling is shared with
/// [`crate::util`].
fn skip_ws_from(s: &str, from: usize) -> (r: usize)
    requires
        from <= s@.len(),
    ensures
        r == scan_end(s@, from as int, not_ws()),
        from <= r <= s@.len(),
{
    let n = s.unicode_len();
    let mut k: usize = from;
    while k < n && char_is_whitespace(s.get_char(k))
        invariant
            from <= k <= n,
            n == s@.len(),
            forall|j: int| from <= j < k ==> is_unicode_whitespace(#[trigger] s@[j]),
        decreases n - k,
    {
        k = k + 1;
    }
    proof {
        lemma_scan_end(s@, from as int, not_ws());
        let se = scan_end(s@, from as int, not_ws());
        if se < k {
            assert(is_unicode_whitespace(s@[se]));
        }
        if k < se {
            assert(!is_unicode_whitespace(s@[k as int]));
        }
    }
    k
}

fn char_stops_token(c: char) -> (r: bool)
    ensures
        r == (stops_token())(c),
{
    char_is_whitespace(c) || c == '/' || c == ';'
}

fn token_end_from(s: &str, from: usize) -> (r: usize)
    requires
        from <= s@.len(),
    ensures
        r == scan_end(s@, from as int, stops_token()),
        from <= r <= s@.len(),
{
    let n = s.unicode_len();
    let mut k: usize = from;
    while k < n && !char_stops_token(s.get_char(k))
        invariant
            from <= k <= n,
            n == s@.len(),
            forall|j: int|
                from <= j < k ==> !(is_unicode_whitespace(#[trigger] s@[j]) || s@[j] == '/'
                    || s@[j] == ';'),
        decreases n - k,
    {
        k = k + 1;
    }
    proof {
        lemma_scan_end(s@, from as int, stops_token());
        let se = scan_end(s@, from as int, stops_token());
        if se < k {
            assert((stops_token())(s@[se]));
        }
        if k < se {
            assert(!(stops_token())(s@[k as int]));
        }
    }
    k
}

fn newline_after(s: &str, from: usize) -> (r: bool)
    requires
        from <= s@.len(),
    ensures
        r == exists|x: int| from <= x < s@.len() && s@[x] == '\n',
{
    let n = s.unicode_len();
    let mut k: usize = from;
    while k < n && s.get_char(k) != '\n'
        invariant
            from <= k <= n,
            n == s@.len(),
            forall|j: int| from <= j < k ==> #[trigger] s@[j] != '\n',
        decreases n - k,
    {
        k = k + 1;
    }
    if k < n {
        proof {
            assert(s@[k as int] == '\n');
        }
        true
    } else {
        false
    }
}

/// Reads one comma-separated piece; see [`spec_media_range`].
fn match_media_range(seg: &str) -> (r: Option<(Option<String>, Option<String>)>)
    ensures
        match (r, spec_media_range(seg@)) {
            (Some(p), Some(q)) => pair_view(p) == q,
            (None, None) => true,
            _ => false,
        },
{
    let n = seg.unicode_len();
    let i0 = skip_ws_from(seg, 0);
    let e1 = token_end_from(seg, i0);
    if e1 == i0 {
        return None;
    }
    let comp1 = seg.substring_char(i0, e1);
    let j = skip_ws_from(seg, e1);
    if j == n || seg.get_char(j) != '/' {
        return None;
    }
    let k0 = skip_ws_from(seg, j + 1);
    let e2 = token_end_from(seg, k0);
    if e2 == k0 {
        return None;
    }
    let comp2 = seg.substring_char(k0, e2);
    let m = skip_ws_from(seg, e2);
    if m < n {
        if seg.get_char(m) != ';' {
            return None;
        }
        if newline_after(seg, m + 1) {
            return None;
        }
    }
    proof {
        assert(comp1@ =~= seg@.subrange(i0 as int, e1 as int));
        assert(comp2@ =~= seg@.subrange(k0 as int, e2 as int));
    }
    let first = wild_of(comp1);
    let second = wild_of(comp2);
    Some((first, second))
}

/// A component as reported; see [`spec_wild`].
fn wild_of(c: &str) -> (r: Option<String>)
    ensures
        (match r {
            Some(s) => Some(s@),
            None => None,
        }) == spec_wild(c@),
{
    if crate::util::str_eq(c, "*") {
        proof {
            reveal_strlit("*");
            assert(c@ =~= seq!['*']);
        }
        None
    } else {
        proof {
            reveal_strlit("*");
            if c@ == seq!['*'] {
                assert(c@ =~= "*"@);
            }
        }
        Some(c.to_owned())
    }
}

/// The `Accept` header parser.
pub struct HttpAcceptHeader {}

impl HttpAcceptHeader {
    /// Builds the parser.
    pub fn new() -> (r: HttpAcceptHeader) {
        HttpAcceptHeader {  }
    }

    /// Lists the media ranges the header asks for, in order, skipping
    /// malformed pieces; a wildcard side is reported as absent.
    pub fn parse(&self, accept_header: &str) -> (r: Vec<(Option<String>, Option<String>)>)
        ensures
            r@.len() == spec_accept_parse(accept_header@).len(),
            forall|i: int|
                0 <= i < r@.len() ==> pair_view(#[trigger] r@[i]) == spec_accept_parse(
                    accept_header@,
                )[i],
    {
        let n = accept_header.unicode_len();
        let mut res: Vec<(Option<String>, Option<String>)> = Vec::new();
        let mut p: usize = 0;
        let ghost full = accept_header@;
        proof {
            assert(full.skip(0) =~= full);
            assert(res_view(res@) + spec_accept_items(spec_split_commas(full))
                =~= spec_accept_items(spec_split_commas(full)));
        }
        loop
            invariant_except_break
                p <= n,
                n == full.len(),
                full == accept_header@,
                spec_accept_parse(full) == res_view(res@) + spec_accept_items(
                    spec_split_commas(full.skip(p as int)),
                ),
            ensures
                spec_accept_parse(full) == res_view(res@),
            decreases n - p,
        {
            // Find the end of this piece.
            let mut q: usize = p;
            while q < n && accept_header.get_char(q) != ','
                invariant
                    p <= q <= n,
                    n == accept_header@.len(),
                    forall|j: int| p <= j < q ==> #[trigger] accept_header@[j] != ',',
                decreases n - q,
            {
                q = q + 1;
            }
            let ghost rest = full.skip(p as int);
            proof {
                lemma_find_first_char(rest, |c: char| c == ',');
                assert forall|j: int| 0 <= j < rest.len() implies rest[j] == full[p + j] by {}
                if q < n {
                    assert(full[q as int] == ',');
                    assert(spec_find_first(rest, |c: char| c == ',') == Some(q - p)) by {
                        match spec_find_first(rest, |c: char| c == ',') {
                            Some(d) => {
                                if p + d < q {
                                    assert(rest[d] == full[p + d]);
                                }
                                if p + d > q {
                                    assert(rest[q - p] == full[q as int]);
                                }
                            },
                            None => {
                                assert(rest[q - p] == full[q as int]);
                            },
                        }
                    }
                    assert(rest.take(q - p) =~= full.subrange(p as int, q as int));
                    assert(rest.skip(q - p + 1) =~= full.skip(q + 1 as int));
                } else {
                    assert(spec_find_first(rest, |c: char| c == ',') is None) by {
                        match spec_find_first(rest, |c: char| c == ',') {
                            Some(d) => {
                                assert(rest[d] == full[p + d]);
                            },
                            None => {},
                        }
                    }
                    assert(rest =~= full.subrange(p as int, n as int));
                }
            }
            let segment = accept_header.substring_char(p, q);
            let ghost segs = spec_split_commas(rest);
            let ghost tail_items = (if q < n {
                spec_accept_items(spec_split_commas(full.skip(q + 1 as int)))
            } else {
                Seq::<(Option<Seq<char>>, Option<Seq<char>>)>::empty()
            });
            proof {
                assert(segment@ =~= full.subrange(p as int, q as int));
                if q < n {
                    assert(segs =~= seq![full.subrange(p as int, q as int)] + spec_split_commas(
                        full.skip(q + 1 as int),
                    ));
                } else {
                    assert(segs =~= seq![full.subrange(p as int, n as int)]);
                }
                assert(segs.len() >= 1);
                assert(segs[0] == segment@);
                assert(segs.drop_first() =~= (if q < n {
                    spec_split_commas(full.skip(q + 1 as int))
                } else {
                    Seq::<Seq<char>>::empty()
                }));
                if q == n {
                    assert(spec_accept_items(segs.drop_first()) =~= tail_items);
                }
                assert(spec_accept_items(segs.drop_first()) == tail_items);
            }
            let item = match_media_range(segment);
            let ghost res0 = res@;
            match item {
                Some(pair) => {
                    let ghost pv = pair_view(pair);
                    proof {
                        assert(spec_media_range(segment@) == Some(pv));
                    }
                    res.push(pair);
                    proof {
                        assert(res_view(res@) =~= res_view(res0).push(pv));
                        assert(spec_accept_items(segs) == seq![pv] + tail_items);
                        assert(res_view(res0) + spec_accept_items(segs) =~= res_view(res@)
                            + tail_items);
                    }
                },
                None => {
                    proof {
                        assert(spec_media_range(segment@) is None);
                        assert(spec_accept_items(segs) == tail_items);
                    }
                },
            }
            proof {
                assert(spec_accept_parse(full) == res_view(res@) + tail_items);
            }
            if q == n {
                proof {
                    assert(tail_items.len() == 0);
                    assert(res_view(res@) + tail_items =~= res_view(res@));
                }
                break ;
            }
            p = q + 1;
        }
        proof {
            assert(spec_accept_parse(full) == res_view(res@));
            assert forall|i: int|
                0 <= i < res@.len() implies pair_view(#[trigger] res@[i]) == spec_accept_parse(
                accept_header@,
            )[i] by {}
        }
        res
    }
}

/// The result entries, viewed as character sequences.
pub open spec fn res_view(entries: Seq<(Option<String>, Option<String>)>) -> Seq<
    (Option<Seq<char>>, Option<Seq<char>>),
> {
    entries.map_values(|p: (Option<String>, Option<String>)| pair_view(p))
}

} // verus!
