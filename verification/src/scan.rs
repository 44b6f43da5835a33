//! Pattern scanning: discovery of raw link candidates in a text buffer.
//!
//! Three patterns are recognised, mirroring the discovery rules of the
//! extractor:
//!
//! * `href` attribute values: the text between `href="` and the next `"`,
//!   provided it is non-empty;
//! * bare absolute URLs: a maximal run of URL characters introduced by
//!   `http://` or `https://`;
//! * bare `www.` URLs: a maximal run of URL characters introduced by `www.`.
//!
//! Matching is leftmost-first and non-overlapping: after a match the scan
//! resumes directly behind it. The URL character class is the ASCII word
//! characters plus the literal set `, . / ? ' $ % & * ( ) + = -`; trailing
//! punctuation drawn from that set (a sentence-ending period, a closing
//! parenthesis) is deliberately captured as part of a bare URL.

use vstd::prelude::*;

verus! {

/// Index of the first occurrence of `c` in `s` at or after position `i`;
/// `s.len()` if there is none.
pub open spec fn find_from(s: Seq<char>, i: int, c: char) -> int
    decreases s.len() - i,
{
    if i < 0 || i >= s.len() {
        s.len() as int
    } else if s[i] == c {
        i
    } else {
        find_from(s, i + 1, c)
    }
}

pub proof fn lemma_find_from_bounds(s: Seq<char>, i: int, c: char)
    requires
        0 <= i <= s.len(),
    ensures
        i <= find_from(s, i, c) <= s.len(),
        find_from(s, i, c) < s.len() ==> s[find_from(s, i, c)] == c,
        forall|k: int| i <= k < find_from(s, i, c) ==> s[k] != c,
    decreases s.len() - i,
{
    if i < s.len() && s[i] != c {
        lemma_find_from_bounds(s, i + 1, c);
    }
}

/// If every position in `[i, j)` misses `c` and `j` hits it, then `j` is the
/// first occurrence at or after `i`.
pub proof fn lemma_find_from_exact(s: Seq<char>, i: int, j: int, c: char)
    requires
        0 <= i <= j < s.len(),
        s[j] == c,
        forall|k: int| i <= k < j ==> s[k] != c,
    ensures
        find_from(s, i, c) == j,
    decreases j - i,
{
    if i < j {
        lemma_find_from_exact(s, i + 1, j, c);
    }
}

/// If every position from `i` to the end misses `c`, there is no occurrence.
pub proof fn lemma_find_from_none(s: Seq<char>, i: int, c: char)
    requires
        0 <= i <= s.len(),
        forall|k: int| i <= k < s.len() ==> s[k] != c,
    ensures
        find_from(s, i, c) == s.len(),
    decreases s.len() - i,
{
    if i < s.len() {
        lemma_find_from_none(s, i + 1, c);
    }
}

/// The character class of bare URLs: ASCII word characters together with
/// `, . / ? ' $ % & * ( ) + = -`.
pub open spec fn is_url_char(c: char) -> bool {
    ||| 'a' as u32 <= c as u32 <= 'z' as u32
    ||| 'A' as u32 <= c as u32 <= 'Z' as u32
    ||| '0' as u32 <= c as u32 <= '9' as u32
    ||| c == '_' || c == ',' || c == '.' || c == '/' || c == '?' || c == '\''
    ||| c == '$' || c == '%' || c == '&' || c == '*' || c == '(' || c == ')'
    ||| c == '+' || c == '=' || c == '-'
}

/// Decides membership in the bare-URL character class.
pub fn url_char(c: char) -> (r: bool)
    ensures
        r == is_url_char(c),
{
    let u = c as u32;
    ('a' as u32 <= u && u <= 'z' as u32) || ('A' as u32 <= u && u <= 'Z' as u32)
        || ('0' as u32 <= u && u <= '9' as u32) || c == '_' || c == ',' || c == '.' || c == '/'
        || c == '?' || c == '\'' || c == '$' || c == '%' || c == '&' || c == '*' || c == '('
        || c == ')' || c == '+' || c == '=' || c == '-'
}

/// End of the run of URL characters that starts at `i`: the first position at
/// or after `i` holding a character outside the class, or `s.len()`.
pub open spec fn run_end(s: Seq<char>, i: int) -> int
    decreases s.len() - i,
{
    if i < 0 || i >= s.len() {
        s.len() as int
    } else if !is_url_char(s[i]) {
        i
    } else {
        run_end(s, i + 1)
    }
}

pub proof fn lemma_run_end_bounds(s: Seq<char>, i: int)
    requires
        0 <= i <= s.len(),
    ensures
        i <= run_end(s, i) <= s.len(),
        run_end(s, i) < s.len() ==> !is_url_char(s[run_end(s, i)]),
        forall|k: int| i <= k < run_end(s, i) ==> is_url_char(s[k]),
    decreases s.len() - i,
{
    if i < s.len() && is_url_char(s[i]) {
        lemma_run_end_bounds(s, i + 1);
    }
}

/// If every position in `[i, j)` is in the class and `j` is out of it (or the
/// end of the text), the run starting at `i` ends exactly at `j`.
pub proof fn lemma_run_end_exact(s: Seq<char>, i: int, j: int)
    requires
        0 <= i <= j <= s.len(),
        j < s.len() ==> !is_url_char(s[j]),
        forall|k: int| i <= k < j ==> is_url_char(s[k]),
    ensures
        run_end(s, i) == j,
    decreases j - i,
{
    if i < j {
        lemma_run_end_exact(s, i + 1, j);
    }
}

/// The literal `href="` stands at position `i` and the attribute value that
/// follows is non-empty: the character directly behind the opening quote is
/// not itself a quote.
pub open spec fn href_head_at(s: Seq<char>, i: int) -> bool {
    &&& 0 <= i
    &&& i + 8 <= s.len()
    &&& s[i] == 'h'
    &&& s[i + 1] == 'r'
    &&& s[i + 2] == 'e'
    &&& s[i + 3] == 'f'
    &&& s[i + 4] == '='
    &&& s[i + 5] == '"'
    &&& s[i + 6] != '"'
}

/// Position of the quote closing the attribute value opened at `i`.
pub open spec fn href_close(s: Seq<char>, i: int) -> int {
    find_from(s, i + 7, '"')
}

/// A complete `href="..."` occurrence starts at position `i`: the head is
/// present and a closing quote exists.
pub open spec fn is_href_at(s: Seq<char>, i: int) -> bool {
    href_head_at(s, i) && href_close(s, i) < s.len()
}

/// The `href` attribute values discovered at or after position `i`, in
/// left-to-right order of their matches. Matches do not overlap: after one,
/// scanning resumes behind its closing quote.
pub open spec fn href_candidates_from(s: Seq<char>, i: int) -> Seq<Seq<char>>
    decreases s.len() - i,
    via href_candidates_from_decreases
{
    if i < 0 || i + 8 > s.len() {
        Seq::empty()
    } else if is_href_at(s, i) {
        seq![s.subrange(i + 6, href_close(s, i))] + href_candidates_from(s, href_close(s, i) + 1)
    } else {
        href_candidates_from(s, i + 1)
    }
}

#[via_fn]
proof fn href_candidates_from_decreases(s: Seq<char>, i: int) {
    if 0 <= i && i + 8 <= s.len() && is_href_at(s, i) {
        lemma_find_from_bounds(s, i + 7, '"');
    }
}

/// Decides whether the head `href="` followed by a non-quote character
/// stands at position `i`.
fn href_head(s: &str, i: usize, len: usize) -> (r: bool)
    requires
        len == s@.len(),
        i + 8 <= len,
    ensures
        r == href_head_at(s@, i as int),
{
    s.get_char(i) == 'h' && s.get_char(i + 1) == 'r' && s.get_char(i + 2) == 'e' && s.get_char(
        i + 3,
    ) == 'f' && s.get_char(i + 4) == '=' && s.get_char(i + 5) == '"' && s.get_char(i + 6) != '"'
}

/// Collects every `href` attribute value of `s`, in match order.
pub fn scan_href(s: &str) -> (out: Vec<String>)
    ensures
        out.deep_view() == href_candidates_from(s@, 0),
{
    let len = s.unicode_len();
    let mut out: Vec<String> = Vec::new();
    let mut i: usize = 0;
    while i < len
        invariant
            len == s@.len(),
            i <= len,
            href_candidates_from(s@, 0) == out.deep_view() + href_candidates_from(s@, i as int),
        decreases len - i,
    {
        let ghost prev = out.deep_view();
        if len - i >= 8 && href_head(s, i, len) {
            let mut j: usize = i + 7;
            while j < len && s.get_char(j) != '"'
                invariant
                    len == s@.len(),
                    i + 7 <= j <= len,
                    forall|k: int| i + 7 <= k < j ==> s@[k] != '"',
                decreases len - j,
            {
                j = j + 1;
            }
            if j < len {
                proof {
                    lemma_find_from_exact(s@, i as int + 7, j as int, '"');
                    assert(is_href_at(s@, i as int));
                }
                let cand = s.substring_char(i + 6, j);
                out.push(cand.to_owned());
                proof {
                    assert(out.deep_view() =~= prev.push(s@.subrange(i + 6, j as int)));
                    assert(href_candidates_from(s@, i as int) == seq![
                        s@.subrange(i + 6, j as int),
                    ] + href_candidates_from(s@, j + 1));
                    assert(out.deep_view() + href_candidates_from(s@, j + 1) =~= prev
                        + href_candidates_from(s@, i as int));
                }
                i = j + 1;
            } else {
                proof {
                    lemma_find_from_none(s@, i as int + 7, '"');
                    assert(!is_href_at(s@, i as int));
                }
                i = i + 1;
            }
        } else {
            i = i + 1;
        }
    }
    out
}

/// The literal `http://` or `https://` stands at position `i`.
pub open spec fn is_http_at(s: Seq<char>, i: int) -> bool {
    &&& 0 <= i
    &&& i + 7 <= s.len()
    &&& s[i] == 'h'
    &&& s[i + 1] == 't'
    &&& s[i + 2] == 't'
    &&& s[i + 3] == 'p'
    &&& if s[i + 4] == 's' {
        i + 8 <= s.len() && s[i + 5] == ':' && s[i + 6] == '/' && s[i + 7] == '/'
    } else {
        s[i + 4] == ':' && s[i + 5] == '/' && s[i + 6] == '/'
    }
}

/// Position directly behind the scheme prefix matched at `i`.
pub open spec fn http_pre_end(s: Seq<char>, i: int) -> int {
    if s[i + 4] == 's' {
        i + 8
    } else {
        i + 7
    }
}

/// End of the bare absolute URL matched at `i`: the scheme prefix extended
/// by the maximal run of URL characters.
pub open spec fn http_match_end(s: Seq<char>, i: int) -> int {
    run_end(s, http_pre_end(s, i))
}

/// The bare `http(s)://` URLs discovered at or after position `i`, in
/// left-to-right order. After a match, scanning resumes at its end.
pub open spec fn http_candidates_from(s: Seq<char>, i: int) -> Seq<Seq<char>>
    decreases s.len() - i,
    via http_candidates_from_decreases
{
    if i < 0 || i + 7 > s.len() {
        Seq::empty()
    } else if is_http_at(s, i) {
        seq![s.subrange(i, http_match_end(s, i))] + http_candidates_from(s, http_match_end(s, i))
    } else {
        http_candidates_from(s, i + 1)
    }
}

#[via_fn]
proof fn http_candidates_from_decreases(s: Seq<char>, i: int) {
    if 0 <= i && i + 7 <= s.len() && is_http_at(s, i) {
        lemma_run_end_bounds(s, http_pre_end(s, i));
    }
}

/// The literal `www.` stands at position `i`.
pub open spec fn is_www_at(s: Seq<char>, i: int) -> bool {
    &&& 0 <= i
    &&& i + 4 <= s.len()
    &&& s[i] == 'w'
    &&& s[i + 1] == 'w'
    &&& s[i + 2] == 'w'
    &&& s[i + 3] == '.'
}

/// End of the bare `www.` URL matched at `i`.
pub open spec fn www_match_end(s: Seq<char>, i: int) -> int {
    run_end(s, i + 4)
}

/// The bare `www.` URLs discovered at or after position `i`, in
/// left-to-right order. After a match, scanning resumes at its end.
pub open spec fn www_candidates_from(s: Seq<char>, i: int) -> Seq<Seq<char>>
    decreases s.len() - i,
    via www_candidates_from_decreases
{
    if i < 0 || i + 4 > s.len() {
        Seq::empty()
    } else if is_www_at(s, i) {
        seq![s.subrange(i, www_match_end(s, i))] + www_candidates_from(s, www_match_end(s, i))
    } else {
        www_candidates_from(s, i + 1)
    }
}

#[via_fn]
proof fn www_candidates_from_decreases(s: Seq<char>, i: int) {
    if 0 <= i && i + 4 <= s.len() && is_www_at(s, i) {
        lemma_run_end_bounds(s, i + 4);
    }
}

/// Extends a match to the end of the run of URL characters that starts at
/// `start`.
fn scan_run_end(s: &str, start: usize, len: usize) -> (e: usize)
    requires
        len == s@.len(),
        start <= len,
    ensures
        e as int == run_end(s@, start as int),
        start <= e <= len,
{
    let mut j: usize = start;
    while j < len && url_char(s.get_char(j))
        invariant
            len == s@.len(),
            start <= j <= len,
            forall|k: int| start <= k < j ==> is_url_char(s@[k]),
        decreases len - j,
    {
        j = j + 1;
    }
    proof {
        lemma_run_end_exact(s@, start as int, j as int);
    }
    j
}

/// Decides whether a scheme prefix stands at position `i`, and returns the
/// position directly behind it.
fn http_head(s: &str, i: usize, len: usize) -> (r: Option<usize>)
    requires
        len == s@.len(),
        i + 7 <= len,
    ensures
        match r {
            Some(e) => is_http_at(s@, i as int) && e as int == http_pre_end(s@, i as int),
            None => !is_http_at(s@, i as int),
        },
{
    if !(s.get_char(i) == 'h' && s.get_char(i + 1) == 't' && s.get_char(i + 2) == 't'
        && s.get_char(i + 3) == 'p') {
        return None;
    }
    if s.get_char(i + 4) == 's' {
        if len - i >= 8 && s.get_char(i + 5) == ':' && s.get_char(i + 6) == '/' && s.get_char(
            i + 7,
        ) == '/' {
            Some(i + 8)
        } else {
            None
        }
    } else {
        if s.get_char(i + 4) == ':' && s.get_char(i + 5) == '/' && s.get_char(i + 6) == '/' {
            Some(i + 7)
        } else {
            None
        }
    }
}

/// Collects every bare `http(s)://` URL of `s`, in match order.
pub fn scan_http(s: &str) -> (out: Vec<String>)
    ensures
        out.deep_view() == http_candidates_from(s@, 0),
{
    let len = s.unicode_len();
    let mut out: Vec<String> = Vec::new();
    let mut i: usize = 0;
    while i < len
        invariant
            len == s@.len(),
            i <= len,
            http_candidates_from(s@, 0) == out.deep_view() + http_candidates_from(s@, i as int),
        decreases len - i,
    {
        let ghost prev = out.deep_view();
        if len - i >= 7 {
            match http_head(s, i, len) {
                Some(pre_end) => {
                    let e = scan_run_end(s, pre_end, len);
                    let cand = s.substring_char(i, e);
                    out.push(cand.to_owned());
                    proof {
                        assert(out.deep_view() =~= prev.push(s@.subrange(i as int, e as int)));
                        assert(http_candidates_from(s@, i as int) == seq![
                            s@.subrange(i as int, e as int),
                        ] + http_candidates_from(s@, e as int));
                        assert(out.deep_view() + http_candidates_from(s@, e as int) =~= prev
                            + http_candidates_from(s@, i as int));
                    }
                    i = e;
                },
                None => {
                    i = i + 1;
                },
            }
        } else {
            i = i + 1;
        }
    }
    out
}

/// Decides whether the literal `www.` stands at position `i`.
fn www_head(s: &str, i: usize, len: usize) -> (r: bool)
    requires
        len == s@.len(),
        i + 4 <= len,
    ensures
        r == is_www_at(s@, i as int),
{
    s.get_char(i) == 'w' && s.get_char(i + 1) == 'w' && s.get_char(i + 2) == 'w' && s.get_char(
        i + 3,
    ) == '.'
}

/// Collects every bare `www.` URL of `s`, in match order.
pub fn scan_www(s: &str) -> (out: Vec<String>)
    ensures
        out.deep_view() == www_candidates_from(s@, 0),
{
    let len = s.unicode_len();
    let mut out: Vec<String> = Vec::new();
    let mut i: usize = 0;
    while i < len
        invariant
            len == s@.len(),
            i <= len,
            www_candidates_from(s@, 0) == out.deep_view() + www_candidates_from(s@, i as int),
        decreases len - i,
    {
        let ghost prev = out.deep_view();
        if len - i >= 4 && www_head(s, i, len) {
            let e = scan_run_end(s, i + 4, len);
            let cand = s.substring_char(i, e);
            out.push(cand.to_owned());
            proof {
                assert(out.deep_view() =~= prev.push(s@.subrange(i as int, e as int)));
                assert(www_candidates_from(s@, i as int) == seq![s@.subrange(i as int, e as int)]
                    + www_candidates_from(s@, e as int));
                assert(out.deep_view() + www_candidates_from(s@, e as int) =~= prev
                    + www_candidates_from(s@, i as int));
            }
            i = e;
        } else {
            i = i + 1;
        }
    }
    out
}

}
