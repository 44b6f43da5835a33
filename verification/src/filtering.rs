//! Substring filtering of canonical links.
//!
//! A configured filter keeps exactly the links that contain it as a literal,
//! case-sensitive substring. Filtering is applied after deduplication, so a
//! filtered-out duplicate never brings back an earlier-dropped one.

use vstd::prelude::*;

verus! {

/// `sub` occurs in `s` starting at position `i`.
pub open spec fn match_at(s: Seq<char>, sub: Seq<char>, i: int) -> bool {
    0 <= i && i + sub.len() <= s.len() && s.subrange(i, i + sub.len() as int) == sub
}

/// `sub` occurs somewhere in `s` as a literal substring.
pub open spec fn contains_sub(s: Seq<char>, sub: Seq<char>) -> bool {
    exists|i: int| match_at(s, sub, i)
}

/// The links of `links` that contain `f` as a literal substring, in order.
pub open spec fn filter_spec(links: Seq<Seq<char>>, f: Seq<char>) -> Seq<Seq<char>>
    decreases links.len(),
{
    if links.len() == 0 {
        Seq::empty()
    } else if contains_sub(links[0], f) {
        seq![links[0]] + filter_spec(links.drop_first(), f)
    } else {
        filter_spec(links.drop_first(), f)
    }
}

/// Decides whether `sub` occurs in `s` as a literal, case-sensitive
/// substring.
pub fn contains_substring(s: &str, sub: &str) -> (r: bool)
    ensures
        r == contains_sub(s@, sub@),
{
    let len = s.unicode_len();
    let m = sub.unicode_len();
    if m > len {
        proof {
            assert(!contains_sub(s@, sub@));
        }
        return false;
    }
    let mut i: usize = 0;
    while i <= len - m
        invariant
            len == s@.len(),
            m == sub@.len(),
            m <= len,
            i <= len - m + 1,
            forall|k: int| 0 <= k < i ==> !match_at(s@, sub@, k),
        decreases len - m - i + 1,
    {
        let mut j: usize = 0;
        while j < m && s.get_char(i + j) == sub.get_char(j)
            invariant
                len == s@.len(),
                m == sub@.len(),
                i + m <= len,
                j <= m,
                forall|t: int| 0 <= t < j ==> s@[i + t] == sub@[t],
            decreases m - j,
        {
            j = j + 1;
        }
        if j == m {
            proof {
                assert(s@.subrange(i as int, i + m) =~= sub@);
                assert(match_at(s@, sub@, i as int));
            }
            return true;
        }
        proof {
            assert(!match_at(s@, sub@, i as int)) by {
                if match_at(s@, sub@, i as int) {
                    assert(s@.subrange(i as int, i + m)[j as int] == sub@[j as int]);
                }
            }
        }
        i = i + 1;
    }
    proof {
        assert(!contains_sub(s@, sub@)) by {
            if contains_sub(s@, sub@) {
                let k = choose|k: int| match_at(s@, sub@, k);
                assert(!match_at(s@, sub@, k));
            }
        }
    }
    false
}

/// Keeps the links that contain `filter` as a literal substring, in order.
pub fn filtered_links(links: &Vec<String>, filter: &str) -> (out: Vec<String>)
    ensures
        out.deep_view() == filter_spec(links.deep_view(), filter@),
{
    let ghost all = links.deep_view();
    let mut out: Vec<String> = Vec::new();
    let mut i: usize = 0;
    proof {
        assert(all.subrange(0, all.len() as int) =~= all);
        assert(out.deep_view() + filter_spec(all, filter@) =~= filter_spec(all, filter@));
    }
    while i < links.len()
        invariant
            i <= links@.len(),
            all == links.deep_view(),
            filter_spec(all, filter@) == out.deep_view() + filter_spec(
                all.subrange(i as int, all.len() as int),
                filter@,
            ),
        decreases links@.len() - i,
    {
        let ghost rest = all.subrange(i as int, all.len() as int);
        proof {
            assert(rest[0] == all[i as int]);
            assert(rest.drop_first() =~= all.subrange(i as int + 1, all.len() as int));
        }
        if contains_substring(links[i].as_str(), filter) {
            let ghost prev = out.deep_view();
            out.push(links[i].clone());
            proof {
                assert(out.deep_view() =~= prev.push(all[i as int]));
                assert(out.deep_view() + filter_spec(rest.drop_first(), filter@) =~= prev
                    + filter_spec(rest, filter@));
            }
        }
        i = i + 1;
    }
    proof {
        assert(all.subrange(i as int, all.len() as int) =~= Seq::<Seq<char>>::empty());
    }
    out
}

}
