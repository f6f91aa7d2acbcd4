//! The order of texts, and lists kept in that order.
use vstd::prelude::*;
use vstd::string::*;

verus! {

broadcast use vstd::string::group_string_axioms;

/// Whether `a` comes before `b`: by the first character in which they differ, or
/// because `a` is a proper beginning of `b`.
pub open spec fn text_lt(a: Seq<char>, b: Seq<char>) -> bool
    decreases a.len(),
{
    if b.len() == 0 {
        false
    } else if a.len() == 0 {
        true
    } else if a[0] != b[0] {
        a[0] < b[0]
    } else {
        text_lt(a.skip(1), b.skip(1))
    }
}

/// Strictly increasing: in order, and nothing twice.
pub open spec fn increasing(s: Seq<Seq<char>>) -> bool {
    forall|i: int, j: int| 0 <= i < j < s.len() ==> text_lt(#[trigger] s[i], #[trigger] s[j])
}

/// No text comes before itself.
pub proof fn lemma_irreflexive(a: Seq<char>)
    ensures
        !text_lt(a, a),
    decreases a.len(),
{
    if a.len() > 0 {
        lemma_irreflexive(a.skip(1));
    }
}

/// The order is transitive.
pub proof fn lemma_transitive(a: Seq<char>, b: Seq<char>, c: Seq<char>)
    requires
        text_lt(a, b),
        text_lt(b, c),
    ensures
        text_lt(a, c),
    decreases a.len(),
{
    if a.len() > 0 && a[0] == b[0] && b[0] == c[0] {
        lemma_transitive(a.skip(1), b.skip(1), c.skip(1));
    }
}

/// Of two different texts one comes first.
pub proof fn lemma_total(a: Seq<char>, b: Seq<char>)
    ensures
        text_lt(a, b) || a == b || text_lt(b, a),
    decreases a.len(),
{
    if a.len() == 0 {
        if b.len() == 0 {
            assert(a =~= b);
        }
    } else if b.len() > 0 && a[0] == b[0] {
        lemma_total(a.skip(1), b.skip(1));
        if a.skip(1) == b.skip(1) {
            assert(a =~= seq![a[0]] + a.skip(1));
            assert(b =~= seq![b[0]] + b.skip(1));
        }
    }
}

/// Two increasing lists with the same members are the same list.
pub proof fn lemma_increasing_unique(a: Seq<Seq<char>>, b: Seq<Seq<char>>)
    requires
        increasing(a),
        increasing(b),
        a.to_set() == b.to_set(),
    ensures
        a == b,
    decreases a.len(),
{
    if a.len() == 0 {
        if b.len() > 0 {
            assert(b.to_set().contains(b[0]));
            assert(a.to_set().contains(b[0]));
        }
        assert(a =~= b);
    } else {
        assert(a.to_set().contains(a.last()));
        assert(b.to_set().contains(a.last()));
        let j = choose|j: int| 0 <= j < b.len() && b[j] == a.last();
        assert(b.to_set().contains(b.last()));
        assert(a.to_set().contains(b.last()));
        let i = choose|i: int| 0 <= i < a.len() && a[i] == b.last();
        if a.last() != b.last() {
            assert(text_lt(a[i], a.last()));
            assert(text_lt(b[j], b.last()));
            lemma_transitive(b.last(), a.last(), b.last());
            lemma_irreflexive(b.last());
        }
        let x = a.drop_last();
        let y = b.drop_last();
        assert forall|t: Seq<char>| x.to_set().contains(t) <==> y.to_set().contains(t) by {
            if x.to_set().contains(t) {
                let k = choose|k: int| 0 <= k < x.len() && x[k] == t;
                assert(text_lt(a[k], a.last()));
                lemma_irreflexive(t);
                assert(a.to_set().contains(a[k]));
                let m = choose|m: int| 0 <= m < b.len() && b[m] == t;
                assert(y[m] == t);
            }
            if y.to_set().contains(t) {
                let k = choose|k: int| 0 <= k < y.len() && y[k] == t;
                assert(text_lt(b[k], b.last()));
                lemma_irreflexive(t);
                assert(b.to_set().contains(b[k]));
                let m = choose|m: int| 0 <= m < a.len() && a[m] == t;
                assert(x[m] == t);
            }
        }
        assert(x.to_set() =~= y.to_set());
        lemma_increasing_unique(x, y);
        assert(a =~= x.push(a.last()));
        assert(b =~= y.push(b.last()));
    }
}

/// Whether `a` comes before `b`.
pub fn text_before(a: &str, b: &str) -> (r: bool)
    ensures
        r == text_lt(a@, b@),
{
    let mut x = a.chars();
    let mut y = b.chars();
    loop
        invariant
            text_lt(a@, b@) == text_lt(vstd::std_specs::iter::IteratorSpec::remaining(&x), vstd::std_specs::iter::IteratorSpec::remaining(&y)),
            vstd::std_specs::iter::IteratorSpec::decrease(&x) is Some,
        decreases vstd::std_specs::iter::IteratorSpec::decrease(&x)->0,
    {
        let ghost p = vstd::std_specs::iter::IteratorSpec::remaining(&x);
        let ghost q = vstd::std_specs::iter::IteratorSpec::remaining(&y);
        match (x.next(), y.next()) {
            (Some(c), Some(d)) => {
                assert(p.drop_first() =~= p.skip(1));
                assert(q.drop_first() =~= q.skip(1));
                if c != d {
                    return c < d;
                }
            },
            (None, Some(_)) => {
                return true;
            },
            (_, None) => {
                return false;
            },
        }
    }
}

/// The number of members of an increasing list that come before `s`.
pub fn rank_in(v: &Vec<String>, s: &str) -> (r: usize)
    requires
        increasing(crate::text::texts(v@)),
    ensures
        r <= v@.len(),
        forall|i: int| 0 <= i < r ==> text_lt(#[trigger] v@[i]@, s@),
        forall|i: int| r <= i < v@.len() ==> !text_lt(#[trigger] v@[i]@, s@),
{
    let mut lo: usize = 0;
    let mut hi: usize = v.len();
    let ghost t = crate::text::texts(v@);
    while lo < hi
        invariant
            lo <= hi <= v@.len(),
            t == crate::text::texts(v@),
            increasing(t),
            forall|i: int| 0 <= i < lo ==> text_lt(#[trigger] v@[i]@, s@),
            forall|i: int| hi <= i < v@.len() ==> !text_lt(#[trigger] v@[i]@, s@),
        decreases hi - lo,
    {
        let mid: usize = lo + (hi - lo) / 2;
        if text_before(v[mid].as_str(), s) {
            proof {
                assert forall|i: int| 0 <= i < mid + 1 implies text_lt(#[trigger] v@[i]@, s@) by {
                    if i < mid {
                        assert(text_lt(t[i], t[mid as int]));
                        lemma_transitive(v@[i]@, v@[mid as int]@, s@);
                    }
                }
            }
            lo = mid + 1;
        } else {
            proof {
                assert forall|i: int| mid <= i < v@.len() implies !text_lt(
                    #[trigger] v@[i]@,
                    s@,
                ) by {
                    if i > mid && text_lt(v@[i]@, s@) {
                        assert(text_lt(t[mid as int], t[i]));
                        lemma_transitive(v@[mid as int]@, v@[i]@, s@);
                    }
                }
            }
            hi = mid;
        }
    }
    lo
}

/// Whether an increasing list holds `s`.
pub fn holds(v: &Vec<String>, s: &str) -> (r: bool)
    requires
        increasing(crate::text::texts(v@)),
    ensures
        r == crate::text::texts(v@).contains(s@),
{
    let i = rank_in(v, s);
    let ghost t = crate::text::texts(v@);
    if i < v.len() && crate::text::same_text(v[i].as_str(), s) {
        assert(t[i as int] == s@);
        true
    } else {
        proof {
            if t.contains(s@) {
                let j = choose|j: int| 0 <= j < t.len() && t[j] == s@;
                assert(v@[j]@ == s@);
                lemma_irreflexive(s@);
                assert(j >= i);
                if j > i {
                    assert(text_lt(t[i as int], t[j]));
                    assert(!text_lt(v@[i as int]@, s@));
                }
            }
        }
        false
    }
}

/// Adds `s` to an increasing list, unless it is there already.
pub fn insert_text(v: &mut Vec<String>, s: String)
    requires
        increasing(crate::text::texts(old(v)@)),
    ensures
        increasing(crate::text::texts(final(v)@)),
        crate::text::texts(final(v)@).to_set() == crate::text::texts(old(v)@).to_set().insert(s@),
{
    let ghost t = crate::text::texts(v@);
    let i = rank_in(v, s.as_str());
    if i < v.len() && crate::text::same_text(v[i].as_str(), s.as_str()) {
        assert(t[i as int] == s@);
        assert(t.to_set().contains(s@));
        assert(t.to_set() =~= t.to_set().insert(s@));
        return ;
    }
    let ghost before = v@;
    v.insert(i, s);
    proof {
        let u = crate::text::texts(v@);
        assert(u =~= t.insert(i as int, s@));
        assert forall|a: int, b: int| 0 <= a < b < u.len() implies text_lt(
            #[trigger] u[a],
            #[trigger] u[b],
        ) by {
            lemma_insert_order(t, i as int, s@, a, b);
        }
        assert forall|x: Seq<char>| u.to_set().contains(x) <==> t.to_set().insert(s@).contains(
            x,
        ) by {
            if u.to_set().contains(x) {
                let k = choose|k: int| 0 <= k < u.len() && u[k] == x;
                if k < i {
                    assert(t[k] == x);
                } else if k > i {
                    assert(t[k - 1] == x);
                }
            }
            if t.to_set().contains(x) {
                let k = choose|k: int| 0 <= k < t.len() && t[k] == x;
                if k < i {
                    assert(u[k] == x);
                } else {
                    assert(u[k + 1] == x);
                }
            }
            if x == s@ {
                assert(u[i as int] == x);
            }
        }
        assert(u.to_set() =~= t.to_set().insert(s@));
    }
}

/// Inserting at the place of a new text keeps the order.
proof fn lemma_insert_order(t: Seq<Seq<char>>, i: int, s: Seq<char>, a: int, b: int)
    requires
        increasing(t),
        0 <= i <= t.len(),
        forall|k: int| 0 <= k < i ==> text_lt(#[trigger] t[k], s),
        forall|k: int| i <= k < t.len() ==> !text_lt(#[trigger] t[k], s),
        i < t.len() ==> t[i] != s,
        0 <= a < b < t.len() + 1,
    ensures
        text_lt(t.insert(i, s)[a], t.insert(i, s)[b]),
{
    let u = t.insert(i, s);
    let x = if a < i {
        a
    } else {
        a - 1
    };
    let y = if b < i {
        b
    } else {
        b - 1
    };
    if a == i {
        assert(u[a] == s && u[b] == t[y]);
        lemma_total(s, t[y]);
        if t[y] == s {
            assert(y > i);
            assert(text_lt(t[i], t[y]));
        }
    } else if b == i {
        assert(u[b] == s && u[a] == t[a]);
    } else {
        assert(u[a] == t[x] && u[b] == t[y]);
    }
}

/// The members of a list in order, each once.
pub fn sorted_unique(v: &Vec<String>) -> (r: Vec<String>)
    ensures
        increasing(crate::text::texts(r@)),
        crate::text::texts(r@).to_set() == crate::text::texts(v@).to_set(),
{
    let mut out: Vec<String> = Vec::new();
    let ghost t = crate::text::texts(v@);
    let mut i: usize = 0;
    assert(crate::text::texts(out@).to_set() =~= t.take(0).to_set());
    while i < v.len()
        invariant
            i <= v@.len(),
            t == crate::text::texts(v@),
            increasing(crate::text::texts(out@)),
            crate::text::texts(out@).to_set() == t.take(i as int).to_set(),
        decreases v.len() - i,
    {
        insert_text(&mut out, v[i].clone());
        proof {
            lemma_take_set(t, i as int);
        }
        i = i + 1;
    }
    assert(t.take(i as int) =~= t);
    out
}

/// One more member taken is one more member in the set.
pub proof fn lemma_take_set<A>(t: Seq<A>, i: int)
    requires
        0 <= i < t.len(),
    ensures
        t.take(i + 1).to_set() == t.take(i).to_set().insert(t[i]),
{
    let a = t.take(i + 1);
    let b = t.take(i);
    assert forall|x: A| a.to_set().contains(x) <==> b.to_set().insert(t[i]).contains(x) by {
        if a.to_set().contains(x) {
            let k = choose|k: int| 0 <= k < a.len() && a[k] == x;
            if k < i {
                assert(b[k] == x);
            }
        }
        if b.to_set().contains(x) {
            let k = choose|k: int| 0 <= k < b.len() && b[k] == x;
            assert(a[k] == x);
        }
        if x == t[i] {
            assert(a[i] == x);
        }
    }
    assert(a.to_set() =~= b.to_set().insert(t[i]));
}

/// Texts are ordered by the first character in which they differ, and where one of them ends
/// before that, it comes first.
pub proof fn the_first_difference_decides(a: Seq<char>, b: Seq<char>, n: int)
    requires
        0 <= n <= a.len(),
        n <= b.len(),
        forall|i: int| 0 <= i < n ==> a[i] == b[i],
    ensures
        n == a.len() ==> (text_lt(a, b) <==> n < b.len()),
        n == b.len() ==> !text_lt(a, b),
        n < a.len() && n < b.len() && a[n] != b[n] ==> (text_lt(a, b) <==> a[n] < b[n]),
    decreases n,
{
    if n > 0 {
        let x = a.skip(1);
        let y = b.skip(1);
        assert(a[0] == b[0]);
        assert forall|i: int| 0 <= i < n - 1 implies x[i] == y[i] by {
            assert(x[i] == a[i + 1] && y[i] == b[i + 1]);
        }
        the_first_difference_decides(x, y, n - 1);
        if n < a.len() && n < b.len() {
            assert(x[n - 1] == a[n] && y[n - 1] == b[n]);
        }
    }
}

} // verus!
