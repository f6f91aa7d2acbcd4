//! Walking from a domain to its parents.
use vstd::prelude::*;
use vstd::string::*;

use crate::text::{find_char, to_chars};

verus! {

broadcast use vstd::string::group_string_axioms;

/// A domain and its parents: what is left after each dot, down to the last label.
pub open spec fn parents(s: Seq<char>) -> Seq<Seq<char>>
    decreases s.len(),
    via parents_decreases
{
    let n = crate::text::find(s, '.');
    if n < s.len() {
        seq![s] + parents(s.skip(n + 1))
    } else {
        seq![s]
    }
}

#[via_fn]
proof fn parents_decreases(s: Seq<char>) {
    crate::text::lemma_find(s, '.');
}

/// The value of the first of some candidates that a map holds.
pub open spec fn nearest<V>(m: Map<Seq<char>, V>, candidates: Seq<Seq<char>>) -> Option<V>
    decreases candidates.len(),
{
    if candidates.len() == 0 {
        None
    } else if m.contains_key(candidates[0]) {
        Some(m[candidates[0]])
    } else {
        nearest(m, candidates.skip(1))
    }
}

/// Whether a predicate can answer `v` for the text `c`.
pub open spec fn can_answer<T, F: Fn(&str) -> Option<T>>(
    predicate: F,
    c: Seq<char>,
    v: Option<T>,
) -> bool {
    exists|s: &str| s@ == c && #[trigger] call_ensures(predicate, (s,), v)
}

/// The domain and its parents are asked in turn: the first `k` were declined, and
/// either the next gave the answer, or there is no other.
pub open spec fn walked<T, F: Fn(&str) -> Option<T>>(
    predicate: F,
    candidates: Seq<Seq<char>>,
    r: Option<T>,
    k: int,
) -> bool {
    &&& 0 <= k <= candidates.len()
    &&& forall|j: int| 0 <= j < k ==> can_answer(predicate, #[trigger] candidates[j], None)
    &&& if k < candidates.len() {
        r is Some && can_answer(predicate, candidates[k], r)
    } else {
        r is None
    }
}

/// The first answer that `predicate` gives for the domain or one of its parents,
/// from the domain itself down to its last label; none if it gives no answer.
pub fn walk_parents<T, F: Fn(&str) -> Option<T>>(domain: &str, predicate: F) -> (r: Option<T>)
    requires
        forall|s: &str| call_requires(predicate, (s,)),
    ensures
        exists|k: int| #[trigger] walked(predicate, parents(domain@), r, k),
{
    let mut current: &str = domain;
    let ghost all = parents(domain@);
    let ghost mut k: int = 0;
    let mut left: usize = to_chars(domain).len();
    assert(all.skip(0) =~= all);
    loop
        invariant
            forall|s: &str| call_requires(predicate, (s,)),
            all == parents(domain@),
            0 <= k < all.len(),
            all.skip(k) == parents(current@),
            forall|j: int| 0 <= j < k ==> can_answer(predicate, #[trigger] all[j], None),
            left == current@.len(),
        decreases left,
    {
        let answer = predicate(current);
        proof {
            assert(all.skip(k)[0] == all[k]);
            assert(parents(current@)[0] == current@);
            assert(call_ensures(predicate, (current,), answer));
            assert(can_answer(predicate, all[k], answer));
        }
        match answer {
            Some(v) => {
                assert(walked(predicate, all, Some(v), k));
                return Some(v);
            },
            None => {},
        }
        let v = to_chars(current);
        let n = find_char(&v, '.');
        proof {
            crate::text::lemma_find(current@, '.');
        }
        if n >= v.len() {
            proof {
                assert(all.skip(k).len() == 1);
                assert forall|j: int| 0 <= j < k + 1 implies can_answer(
                    predicate,
                    #[trigger] all[j],
                    None::<T>,
                ) by {}
                assert(walked(predicate, all, None::<T>, k + 1));
            }
            return None;
        }
        let ghost here = current@;
        current = current.substring_char(n + 1, v.len());
        left = v.len() - (n + 1);
        proof {
            assert(current@ =~= here.skip(n + 1));
            assert(all.skip(k).skip(1) =~= all.skip(k + 1));
            assert(parents(here).skip(1) =~= parents(here.skip(n + 1)));
            assert(all.skip(k + 1).len() > 0);
            k = k + 1;
        }
    }
}

/// A walk with a predicate that looks names up in a map gives the nearest entry.
pub proof fn lemma_walk_is_nearest<V, F: Fn(&str) -> Option<V>>(
    predicate: F,
    m: Map<Seq<char>, V>,
    candidates: Seq<Seq<char>>,
    r: Option<V>,
    k: int,
)
    requires
        walked(predicate, candidates, r, k),
        forall|s: &str, o: Option<V>| #[trigger]
            call_ensures(predicate, (s,), o) ==> o == (if m.contains_key(s@) {
                Some(m[s@])
            } else {
                None
            }),
    ensures
        r == nearest(m, candidates),
    decreases candidates.len(),
{
    if candidates.len() > 0 {
        let rest = candidates.skip(1);
        if k > 0 {
            assert(can_answer(predicate, candidates[0], None));
            let s = choose|s: &str|
                s@ == candidates[0] && #[trigger] call_ensures(predicate, (s,), None::<V>);
            assert(!m.contains_key(candidates[0]));
            assert(walked(predicate, rest, r, k - 1)) by {
                assert forall|j: int| 0 <= j < k - 1 implies can_answer(
                    predicate,
                    #[trigger] rest[j],
                    None::<V>,
                ) by {
                    assert(rest[j] == candidates[j + 1]);
                }
            }
            lemma_walk_is_nearest(predicate, m, rest, r, k - 1);
        } else {
            assert(can_answer(predicate, candidates[0], r));
            let s = choose|s: &str|
                s@ == candidates[0] && #[trigger] call_ensures(predicate, (s,), r);
            assert(m.contains_key(candidates[0]));
        }
    }
}

/// The last label is a parent of every domain, so a registered last label answers
/// for every domain under it that has no nearer entry.
pub proof fn last_label_matches<V>(m: Map<Seq<char>, V>, domain: Seq<char>)
    requires
        m.contains_key(parents(domain).last()),
    ensures
        nearest(m, parents(domain)) is Some,
{
    lemma_parents_nonempty(domain);
    lemma_nearest_some(m, parents(domain), parents(domain).len() - 1);
}

proof fn lemma_parents_nonempty(s: Seq<char>)
    ensures
        parents(s).len() > 0,
{
}

/// A candidate that the map holds gives an answer.
pub proof fn lemma_nearest_some<V>(m: Map<Seq<char>, V>, c: Seq<Seq<char>>, i: int)
    requires
        0 <= i < c.len(),
        m.contains_key(c[i]),
    ensures
        nearest(m, c) is Some,
    decreases c.len(),
{
    if i > 0 && !m.contains_key(c[0]) {
        assert(c.skip(1)[i - 1] == c[i]);
        lemma_nearest_some(m, c.skip(1), i - 1);
    }
}

// ---------------------------------------------------------------------------
// Laws
// ---------------------------------------------------------------------------
/// Whether what follows a place in a name is the name itself or one of its parents.
pub open spec fn starts_parent(s: Seq<char>, n: int) -> bool {
    0 <= n <= s.len() && (n == 0 || s[n - 1] == '.')
}

/// What follows a dot is a parent, and every parent follows a dot.
pub proof fn parents_follow_dots(s: Seq<char>)
    ensures
        forall|n: int| #[trigger] starts_parent(s, n) ==> parents(s).contains(s.skip(n)),
        forall|k: int|
            0 <= k < parents(s).len() ==> exists|n: int| #[trigger]
                starts_parent(s, n) && s.skip(n) == #[trigger] parents(s)[k],
    decreases s.len(),
{
    crate::text::lemma_find(s, '.');
    let n0 = crate::text::find(s, '.');
    let all = parents(s);
    assert(s.skip(0) =~= s);
    assert(all[0] == s);
    if n0 < s.len() {
        let rest = s.skip(n0 + 1);
        parents_follow_dots(rest);
        assert forall|n: int| #[trigger] starts_parent(s, n) implies all.contains(s.skip(n)) by {
            if n > 0 {
                assert(n - 1 >= n0);
                assert(starts_parent(rest, n - n0 - 1)) by {
                    if n > n0 + 1 {
                        assert(rest[n - n0 - 2] == s[n - 1]);
                    }
                }
                assert(rest.skip(n - n0 - 1) =~= s.skip(n));
                let i = choose|i: int| 0 <= i < parents(rest).len() && parents(rest)[i] == s.skip(n);
                assert(all[i + 1] == s.skip(n));
            }
        }
        assert forall|k: int| 0 <= k < all.len() implies exists|n: int| #[trigger]
            starts_parent(s, n) && s.skip(n) == #[trigger] all[k] by {
            if k == 0 {
                assert(starts_parent(s, 0));
            } else {
                assert(all[k] == parents(rest)[k - 1]);
                let m = choose|m: int| #[trigger]
                    starts_parent(rest, m) && rest.skip(m) == parents(rest)[k - 1];
                assert(starts_parent(s, m + n0 + 1)) by {
                    if m > 0 {
                        assert(rest[m - 1] == s[m + n0]);
                    }
                }
                assert(s.skip(m + n0 + 1) =~= rest.skip(m));
            }
        }
    } else {
        assert(starts_parent(s, 0));
        assert forall|n: int| #[trigger] starts_parent(s, n) implies all.contains(s.skip(n)) by {
            assert(n == 0);
        }
    }
}

/// An entry for a name answers for every name under it, unless a nearer one does.
pub proof fn an_entry_covers_subdomains<V>(
    m: Map<Seq<char>, V>,
    sub: Seq<char>,
    domain: Seq<char>,
)
    requires
        m.contains_key(domain),
    ensures
        nearest(m, parents(sub + seq!['.'] + domain)) is Some,
{
    let s = sub + seq!['.'] + domain;
    let n = sub.len() as int + 1;
    parents_follow_dots(s);
    assert(starts_parent(s, n));
    assert(s.skip(n) =~= domain);
    let i = choose|i: int| 0 <= i < parents(s).len() && parents(s)[i] == domain;
    lemma_nearest_some(m, parents(s), i);
}

/// Only an entry for the name itself or for what follows one of its dots answers for it:
/// a name that merely ends in the same characters does not.
pub proof fn only_parents_answer<V>(m: Map<Seq<char>, V>, s: Seq<char>)
    requires
        nearest(m, parents(s)) is Some,
    ensures
        exists|n: int| #[trigger]
            starts_parent(s, n) && m.contains_key(s.skip(n)) && nearest(m, parents(s)) == Some(
                m[s.skip(n)],
            ),
{
    let k = lemma_nearest_is_member(m, parents(s));
    parents_follow_dots(s);
    let n = choose|n: int| #[trigger] starts_parent(s, n) && s.skip(n) == parents(s)[k];
    assert(starts_parent(s, n) && m.contains_key(s.skip(n)));
}

/// The answer is that of a candidate.
proof fn lemma_nearest_is_member<V>(m: Map<Seq<char>, V>, c: Seq<Seq<char>>) -> (k: int)
    requires
        nearest(m, c) is Some,
    ensures
        0 <= k < c.len(),
        m.contains_key(c[k]),
        nearest(m, c) == Some(m[c[k]]),
    decreases c.len(),
{
    if m.contains_key(c[0]) {
        0
    } else {
        let k = lemma_nearest_is_member(m, c.skip(1));
        assert(c.skip(1)[k] == c[k + 1]);
        k + 1
    }
}

/// The entry for the longest part of a name answers for it, where a part is the name itself
/// or what follows one of its dots. Nothing else in the name or in the entries matters.
pub proof fn the_longest_part_answers<V>(m: Map<Seq<char>, V>, s: Seq<char>, n: int)
    requires
        0 <= n <= s.len(),
        n == 0 || s[n - 1] == '.',
        m.contains_key(s.skip(n)),
        forall|k: int|
            0 <= k < n && (k == 0 || s[k - 1] == '.') ==> !m.contains_key(#[trigger] s.skip(k)),
    ensures
        nearest(m, parents(s)) == Some(m[s.skip(n)]),
    decreases s.len(),
{
    crate::text::lemma_find(s, '.');
    let n0 = crate::text::find(s, '.');
    assert(s.skip(0) =~= s);
    assert(parents(s)[0] == s);
    if n > 0 {
        assert(!m.contains_key(s.skip(0)));
        assert(n0 <= n - 1);
        let rest = s.skip(n0 + 1);
        assert(parents(s).skip(1) =~= parents(rest));
        let k = n - n0 - 1;
        if k > 0 {
            assert(rest[k - 1] == s[n - 1]);
        }
        assert(rest.skip(k) =~= s.skip(n));
        assert forall|q: int| 0 <= q < k && (q == 0 || rest[q - 1] == '.') implies !m.contains_key(
            #[trigger] rest.skip(q),
        ) by {
            if q > 0 {
                assert(rest[q - 1] == s[q + n0]);
            }
            assert(rest.skip(q) =~= s.skip(q + n0 + 1));
        }
        the_longest_part_answers(m, rest, k);
    }
}

/// Where neither a name nor what follows one of its dots has an entry, nothing answers.
pub proof fn no_part_no_answer<V>(m: Map<Seq<char>, V>, s: Seq<char>)
    requires
        forall|k: int|
            0 <= k <= s.len() && (k == 0 || s[k - 1] == '.') ==> !m.contains_key(
                #[trigger] s.skip(k),
            ),
    ensures
        nearest(m, parents(s)) is None,
{
    if nearest(m, parents(s)) is Some {
        only_parents_answer(m, s);
        let n = choose|n: int| #[trigger] starts_parent(s, n) && m.contains_key(s.skip(n));
        assert(!m.contains_key(s.skip(n)));
    }
}

} // verus!
