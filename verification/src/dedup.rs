//! Deduplication by a scheme-agnostic key.
//!
//! The key of a link is everything behind its first `:`; a link without a
//! `:` is its own key. Two links that differ only by scheme — `http://`
//! against `https://` — share a key, and only the first occurrence in
//! discovery order survives.

use vstd::prelude::*;

use crate::scan::{find_from, lemma_find_from_exact, lemma_find_from_none};

verus! {

/// The deduplication key of a rendered link: everything behind the first
/// `:`, or the whole link when it has none.
pub open spec fn key_of(s: Seq<char>) -> Seq<char> {
    if find_from(s, 0, ':') < s.len() {
        s.subrange(find_from(s, 0, ':') + 1, s.len() as int)
    } else {
        s
    }
}

/// The links of `links` whose key is not in `seen` and not the key of an
/// earlier link, in order.
pub open spec fn dedup_rec(links: Seq<Seq<char>>, seen: Set<Seq<char>>) -> Seq<Seq<char>>
    decreases links.len(),
{
    if links.len() == 0 {
        Seq::empty()
    } else if seen.contains(key_of(links[0])) {
        dedup_rec(links.drop_first(), seen)
    } else {
        seq![links[0]] + dedup_rec(links.drop_first(), seen.insert(key_of(links[0])))
    }
}

/// The first occurrence of every key of `links`, in discovery order.
pub open spec fn dedup_spec(links: Seq<Seq<char>>) -> Seq<Seq<char>> {
    dedup_rec(links, Set::empty())
}

/// A set of deduplication keys.
#[verifier::external_body]
pub struct KeySet {
    inner: hashbrown::HashSet<String>,
}

/// The keys a [`KeySet`] holds, as character sequences. String equality is
/// character-sequence equality, so the set of views models the set exactly.
pub uninterp spec fn key_set_view(s: KeySet) -> Set<Seq<char>>;

/// Relies on hashbrown::HashSet::new: the fresh set is empty.
#[verifier::external_body]
pub(crate) fn key_set_new() -> (s: KeySet)
    ensures
        key_set_view(s) == Set::<Seq<char>>::empty(),
{
    KeySet { inner: hashbrown::HashSet::new() }
}

/// Relies on hashbrown::HashSet::insert: the value is added, and the call
/// returns whether the set did not hold it before.
#[verifier::external_body]
pub(crate) fn key_set_insert(s: &mut KeySet, key: String) -> (added: bool)
    ensures
        added == !key_set_view(*old(s)).contains(key@),
        key_set_view(*final(s)) == key_set_view(*old(s)).insert(key@),
{
    s.inner.insert(key)
}

/// Strips the scheme from the left-hand side of a link: everything up to
/// and including the first `:` is dropped; a link without a `:` is returned
/// whole.
pub fn strip_protocol(link: &str) -> (r: String)
    ensures
        r@ == key_of(link@),
{
    let len = link.unicode_len();
    let mut i: usize = 0;
    while i < len && link.get_char(i) != ':'
        invariant
            len == link@.len(),
            i <= len,
            forall|k: int| 0 <= k < i ==> link@[k] != ':',
        decreases len - i,
    {
        i = i + 1;
    }
    if i < len {
        proof {
            lemma_find_from_exact(link@, 0, i as int, ':');
        }
        link.substring_char(i + 1, len).to_owned()
    } else {
        proof {
            lemma_find_from_none(link@, 0, ':');
        }
        link.to_owned()
    }
}

/// Strips the scheme from the left-hand side of a link. The key two links
/// share exactly when they differ only by scheme.
pub fn protocol_agnostic(link: &str) -> (r: String)
    ensures
        r@ == key_of(link@),
{
    strip_protocol(link)
}

/// Keeps the first occurrence of every deduplication key, in order.
pub fn unique_links(links: &Vec<String>) -> (out: Vec<String>)
    ensures
        out.deep_view() == dedup_spec(links.deep_view()),
{
    let ghost all = links.deep_view();
    let mut seen = key_set_new();
    let mut out: Vec<String> = Vec::new();
    let mut i: usize = 0;
    proof {
        assert(all.subrange(0, all.len() as int) =~= all);
        assert(out.deep_view() =~= Seq::<Seq<char>>::empty());
        assert(out.deep_view() + dedup_rec(all, key_set_view(seen)) =~= dedup_spec(all));
    }
    while i < links.len()
        invariant
            i <= links@.len(),
            all == links.deep_view(),
            dedup_spec(all) == out.deep_view() + dedup_rec(
                all.subrange(i as int, all.len() as int),
                key_set_view(seen),
            ),
        decreases links@.len() - i,
    {
        let ghost rest = all.subrange(i as int, all.len() as int);
        proof {
            assert(rest[0] == all[i as int]);
            assert(rest.drop_first() =~= all.subrange(i as int + 1, all.len() as int));
        }
        let key = strip_protocol(links[i].as_str());
        let ghost seen_before = key_set_view(seen);
        let added = key_set_insert(&mut seen, key);
        if added {
            let ghost prev = out.deep_view();
            out.push(links[i].clone());
            proof {
                assert(out.deep_view() =~= prev.push(all[i as int]));
                assert(dedup_rec(rest, seen_before) == seq![rest[0]] + dedup_rec(
                    rest.drop_first(),
                    seen_before.insert(key_of(rest[0])),
                ));
                assert(out.deep_view() + dedup_rec(rest.drop_first(), key_set_view(seen)) =~= prev
                    + dedup_rec(rest, seen_before));
            }
        } else {
            proof {
                assert(key_set_view(seen) =~= seen_before);
                assert(dedup_rec(rest, seen_before) == dedup_rec(rest.drop_first(), seen_before));
            }
        }
        i = i + 1;
    }
    proof {
        assert(all.subrange(i as int, all.len() as int) =~= Seq::<Seq<char>>::empty());
    }
    out
}

}
