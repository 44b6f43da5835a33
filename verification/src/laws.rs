//! Laws of the pipeline, each proved once and for all inputs.

use vstd::prelude::*;

use crate::canon::{canon_spec, normalize_base, starts_http, starts_www, strip_one_slash};
use crate::dedup::{dedup_rec, dedup_spec, key_of};
use crate::extractor::extract_spec;
use crate::filtering::{contains_sub, filter_spec};
use crate::scan::{find_from, href_candidates_from, http_candidates_from, www_candidates_from};

verus! {

/// Extraction ordering: in full-text mode the discovered sequence is
/// exactly the `href` attribute values, then the bare `http(s)://` URLs,
/// then the bare `www.` URLs, each pass in document order.
pub proof fn lemma_full_text_order(s: Seq<char>)
    ensures
        extract_spec(s, true) == href_candidates_from(s, 0) + http_candidates_from(s, 0)
            + www_candidates_from(s, 0),
{
}

/// Idempotence on absolute links: a candidate that already starts with
/// `http` canonicalizes to itself, whatever base URL is configured.
pub proof fn lemma_absolute_link_unchanged(link: Seq<char>, base: Option<Seq<char>>)
    requires
        starts_http(link),
    ensures
        canon_spec(link, base) == link,
{
}

/// `www` prefixing: a candidate that starts with `www` canonicalizes to
/// itself behind `http://`, whatever base URL is configured.
pub proof fn lemma_www_prefixed(link: Seq<char>, base: Option<Seq<char>>)
    requires
        starts_www(link),
    ensures
        canon_spec(link, base) == "http://"@ + link,
{
}

/// Base joining: a relative candidate — one starting with neither `www`
/// nor `http` — is joined to the configured base with exactly one `/`
/// between them.
pub proof fn lemma_base_joining(link: Seq<char>, b: Seq<char>)
    requires
        !starts_www(link),
        !starts_http(link),
    ensures
        canon_spec(link, Some(b)) == b + "/"@ + strip_one_slash(link),
{
}

/// Configuring a base URL with or without a trailing slash normalizes to
/// the same base.
pub proof fn lemma_base_slash_insensitive(url: Seq<char>)
    requires
        url.len() == 0 || url[url.len() - 1] != '/',
    ensures
        normalize_base(url.push('/')) == normalize_base(url),
{
    assert(normalize_base(url.push('/')) =~= url);
}

/// Scheme-agnostic keys: links that differ only in their scheme share a
/// deduplication key, so only the first of them survives deduplication.
pub proof fn lemma_scheme_agnostic_key(rest: Seq<char>)
    ensures
        key_of("http:"@ + rest) == rest,
        key_of("https:"@ + rest) == rest,
{
    reveal_strlit("http:");
    reveal_strlit("https:");
    let s = "http:"@ + rest;
    assert(find_from(s, 0, ':') == find_from(s, 1, ':'));
    assert(find_from(s, 1, ':') == find_from(s, 2, ':'));
    assert(find_from(s, 2, ':') == find_from(s, 3, ':'));
    assert(find_from(s, 3, ':') == find_from(s, 4, ':'));
    assert(find_from(s, 4, ':') == 4);
    assert(key_of(s) =~= rest);
    let t = "https:"@ + rest;
    assert(find_from(t, 0, ':') == find_from(t, 1, ':'));
    assert(find_from(t, 1, ':') == find_from(t, 2, ':'));
    assert(find_from(t, 2, ':') == find_from(t, 3, ':'));
    assert(find_from(t, 3, ':') == find_from(t, 4, ':'));
    assert(find_from(t, 4, ':') == find_from(t, 5, ':'));
    assert(find_from(t, 5, ':') == 5);
    assert(key_of(t) =~= rest);
}

proof fn lemma_dedup_rec_members(links: Seq<Seq<char>>, seen: Set<Seq<char>>)
    ensures
        forall|j: int|
            0 <= j < dedup_rec(links, seen).len() ==> links.contains(
                #[trigger] dedup_rec(links, seen)[j],
            ),
    decreases links.len(),
{
    if links.len() > 0 {
        let k0 = key_of(links[0]);
        let rest = links.drop_first();
        if seen.contains(k0) {
            lemma_dedup_rec_members(rest, seen);
            assert forall|j: int| 0 <= j < dedup_rec(links, seen).len() implies links.contains(
                dedup_rec(links, seen)[j],
            ) by {
                let x = dedup_rec(links, seen)[j];
                assert(dedup_rec(rest, seen)[j] == x);
                let i = choose|i: int| 0 <= i < rest.len() && rest[i] == x;
                assert(links[i + 1] == x);
            }
        } else {
            lemma_dedup_rec_members(rest, seen.insert(k0));
            assert forall|j: int| 0 <= j < dedup_rec(links, seen).len() implies links.contains(
                dedup_rec(links, seen)[j],
            ) by {
                if j == 0 {
                    assert(dedup_rec(links, seen)[0] == links[0]);
                } else {
                    let x = dedup_rec(links, seen)[j];
                    assert(dedup_rec(rest, seen.insert(k0))[j - 1] == x);
                    let i = choose|i: int| 0 <= i < rest.len() && rest[i] == x;
                    assert(links[i + 1] == x);
                }
            }
        }
    }
}

/// Deduplication invents nothing: every emitted link stands somewhere in
/// its input.
pub proof fn lemma_dedup_members(links: Seq<Seq<char>>)
    ensures
        forall|j: int|
            0 <= j < dedup_spec(links).len() ==> links.contains(#[trigger] dedup_spec(links)[j]),
{
    lemma_dedup_rec_members(links, Set::empty());
}

proof fn lemma_dedup_rec_distinct(links: Seq<Seq<char>>, seen: Set<Seq<char>>)
    ensures
        forall|j: int|
            0 <= j < dedup_rec(links, seen).len() ==> !seen.contains(
                key_of(#[trigger] dedup_rec(links, seen)[j]),
            ),
        forall|j1: int, j2: int|
            0 <= j1 < j2 < dedup_rec(links, seen).len() ==> key_of(
                #[trigger] dedup_rec(links, seen)[j1],
            ) != key_of(#[trigger] dedup_rec(links, seen)[j2]),
    decreases links.len(),
{
    if links.len() > 0 {
        let k0 = key_of(links[0]);
        let rest = links.drop_first();
        if seen.contains(k0) {
            lemma_dedup_rec_distinct(rest, seen);
            assert(dedup_rec(links, seen) == dedup_rec(rest, seen));
        } else {
            lemma_dedup_rec_distinct(rest, seen.insert(k0));
            let res = dedup_rec(links, seen);
            let tail = dedup_rec(rest, seen.insert(k0));
            assert(res == seq![links[0]] + tail);
            assert forall|j: int| 0 <= j < res.len() implies !seen.contains(
                key_of(res[j]),
            ) by {
                if j == 0 {
                    assert(res[0] == links[0]);
                } else {
                    assert(res[j] == tail[j - 1]);
                    assert(!seen.insert(k0).contains(key_of(tail[j - 1])));
                }
            }
            assert forall|j1: int, j2: int| 0 <= j1 < j2 < res.len() implies key_of(res[j1])
                != key_of(res[j2]) by {
                if j1 == 0 {
                    assert(res[j2] == tail[j2 - 1]);
                    assert(!seen.insert(k0).contains(key_of(tail[j2 - 1])));
                } else {
                    assert(res[j1] == tail[j1 - 1]);
                    assert(res[j2] == tail[j2 - 1]);
                }
            }
        }
    }
}

/// Deduplication leaves no two links sharing a key: the emitted keys are
/// pairwise distinct.
pub proof fn lemma_dedup_distinct_keys(links: Seq<Seq<char>>)
    ensures
        forall|j1: int, j2: int|
            0 <= j1 < j2 < dedup_spec(links).len() ==> key_of(#[trigger] dedup_spec(links)[j1])
                != key_of(#[trigger] dedup_spec(links)[j2]),
{
    lemma_dedup_rec_distinct(links, Set::empty());
}

proof fn lemma_dedup_rec_first(links: Seq<Seq<char>>, seen: Set<Seq<char>>, i: int)
    requires
        0 <= i < links.len(),
        !seen.contains(key_of(links[i])),
        forall|k: int| 0 <= k < i ==> key_of(links[k]) != key_of(links[i]),
    ensures
        dedup_rec(links, seen).contains(links[i]),
    decreases links.len(),
{
    let k0 = key_of(links[0]);
    let rest = links.drop_first();
    let res = dedup_rec(links, seen);
    if i == 0 {
        assert(res[0] == links[0]);
    } else {
        assert(rest[i - 1] == links[i]);
        assert(forall|k: int| 0 <= k < i - 1 ==> key_of(#[trigger] rest[k]) == key_of(
            links[k + 1],
        ));
        if seen.contains(k0) {
            lemma_dedup_rec_first(rest, seen, i - 1);
        } else {
            assert(key_of(links[0]) != key_of(links[i]));
            lemma_dedup_rec_first(rest, seen.insert(k0), i - 1);
            let tail = dedup_rec(rest, seen.insert(k0));
            let t = choose|t: int| 0 <= t < tail.len() && tail[t] == links[i];
            assert(res[t + 1] == links[i]);
        }
    }
}

/// The first occurrence wins: a link whose key no earlier link carries
/// survives deduplication.
pub proof fn lemma_dedup_first_occurrence(links: Seq<Seq<char>>, i: int)
    requires
        0 <= i < links.len(),
        forall|k: int| 0 <= k < i ==> key_of(links[k]) != key_of(links[i]),
    ensures
        dedup_spec(links).contains(links[i]),
{
    lemma_dedup_rec_first(links, Set::empty(), i);
}

/// Case-sensitive filtering: every link that survives the filter contains
/// the filter as a literal substring.
pub proof fn lemma_filter_members(links: Seq<Seq<char>>, f: Seq<char>, i: int)
    requires
        0 <= i < filter_spec(links, f).len(),
    ensures
        contains_sub(filter_spec(links, f)[i], f),
    decreases links.len(),
{
    if links.len() > 0 {
        if contains_sub(links[0], f) {
            if i > 0 {
                lemma_filter_members(links.drop_first(), f, i - 1);
            }
        } else {
            lemma_filter_members(links.drop_first(), f, i);
        }
    }
}

}
