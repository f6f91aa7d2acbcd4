//! A tree of domain labels, read from the last label to the first. Domains that end
//! alike share the nodes of their common end.
use vstd::prelude::*;
use vstd::hash_map::StringHashMap;
use vstd::string::*;

use crate::text::{split_at_char, to_chars, to_text};

verus! {

broadcast use {vstd::string::group_string_axioms, vstd::hash_map::group_hash_map_axioms};

/// The labels of a domain from the last to the first, as far as they are not empty.
pub open spec fn labels(domain: Seq<char>) -> Seq<Seq<char>> {
    from_the_end(crate::text::split(domain, '.'))
}

/// Pieces from the last to the first, as far as they are not empty.
pub open spec fn from_the_end(parts: Seq<Seq<char>>) -> Seq<Seq<char>>
    decreases parts.len(),
{
    if parts.len() == 0 || parts.last().len() == 0 {
        seq![]
    } else {
        seq![parts.last()] + from_the_end(parts.drop_last())
    }
}

/// The value of the longest beginning of a label list, of at most `n` labels, that a
/// map holds.
pub open spec fn deepest<T>(m: Map<Seq<Seq<char>>, T>, path: Seq<Seq<char>>, n: int) -> Option<T>
    decreases n + 1,
{
    if n < 0 {
        None
    } else if m.contains_key(path.take(n)) {
        Some(m[path.take(n)])
    } else {
        deepest(m, path, n - 1)
    }
}

/// Whether `p` is a beginning of `q`.
pub open spec fn leads_to(p: Seq<Seq<char>>, q: Seq<Seq<char>>) -> bool {
    p.len() <= q.len() && q.take(p.len() as int) == p
}

/// The beginnings of the keys of a map, the empty one in any case.
pub open spec fn stems<T>(m: Map<Seq<Seq<char>>, T>) -> Set<Seq<Seq<char>>> {
    Set::new(
        |p: Seq<Seq<char>>|
            p.len() == 0 || exists|q: Seq<Seq<char>>| #[trigger] m.contains_key(q) && leads_to(p, q),
    )
}

/// One node: its children by label, as places in the list of nodes, and its value.
struct TrieNode<T> {
    children: StringHashMap<usize>,
    data: Option<T>,
}

/// Values for domains, found by the longest registered end of a domain.
pub struct Trie<T> {
    nodes: Vec<TrieNode<T>>,
    paths: Ghost<Seq<Seq<Seq<char>>>>,
}

impl<T> TrieNode<T> {
    /// A node without children and without a value.
    fn new() -> (r: Self)
        ensures
            r.children@ == Map::<Seq<char>, usize>::empty(),
            r.data is None,
    {
        TrieNode { children: StringHashMap::new(), data: None }
    }
}

impl<T> View for Trie<T> {
    type V = Map<Seq<Seq<char>>, T>;

    closed spec fn view(&self) -> Map<Seq<Seq<char>>, T> {
        Map::new(
            |p: Seq<Seq<char>>| self.holder(p) is Some,
            |p: Seq<Seq<char>>| self.nodes@[self.holder(p)->0].data->0,
        )
    }
}

impl<T> Trie<T> {
    /// The node with the path `p`, if it has a value.
    spec fn holder(&self, p: Seq<Seq<char>>) -> Option<int> {
        if exists|i: int| self.holds(i, p) {
            Some(choose|i: int| self.holds(i, p))
        } else {
            None
        }
    }

    /// Whether node `i` has the path `p` and a value.
    spec fn holds(&self, i: int, p: Seq<Seq<char>>) -> bool {
        0 <= i < self.nodes@.len() && self.paths@[i] == p && self.nodes@[i].data is Some
    }

    /// The nodes form a tree: each has a path of its own, the first the empty one;
    /// a node's children are exactly the nodes with one label more.
    spec fn is_tree(&self) -> bool {
        &&& self.nodes@.len() == self.paths@.len()
        &&& self.nodes@.len() > 0
        &&& self.paths@[0].len() == 0
        &&& self.nodes@[0].data is None
        &&& forall|i: int, j: int|
            0 <= i < j < self.paths@.len() ==> self.paths@[i] != self.paths@[j]
        &&& forall|i: int, l: Seq<char>|
            0 <= i < self.nodes@.len() && #[trigger] self.nodes@[i].children@.contains_key(l) ==> {
                let j = self.nodes@[i].children@[l];
                j < self.nodes@.len() && self.paths@[j as int] == self.paths@[i].push(l)
            }
        &&& forall|i: int, j: int|
            #![trigger self.nodes@[i], self.paths@[j]]
            0 <= i < self.nodes@.len() && 0 < j < self.nodes@.len() && self.paths@[j].len() > 0
                && self.paths@[j].drop_last() == self.paths@[i]
                ==> self.nodes@[i].children@.contains_key(self.paths@[j].last())
        &&& forall|j: int| 0 < j < self.nodes@.len() ==> #[trigger] self.has_parent(j)
    }

    /// Whether the path of node `j` is that of another node with one label more.
    spec fn has_parent(&self, j: int) -> bool {
        self.paths@[j].len() > 0 && self.paths@.contains(self.paths@[j].drop_last())
    }

    /// Whether node `j` leads to a node with a value.
    spec fn is_needed(&self, j: int) -> bool {
        exists|k: int|
            0 <= k < self.nodes@.len() && (#[trigger] self.nodes@[k]).data is Some && leads_to(
                self.paths@[j],
                self.paths@[k],
            )
    }

    /// The nodes form a tree, and none but the first is idle.
    pub closed spec fn wf(&self) -> bool {
        &&& self.is_tree()
        &&& forall|j: int| 0 < j < self.nodes@.len() ==> #[trigger] self.is_needed(j)
    }

    /// What a node holds is what the map holds at its path.
    proof fn lemma_view(&self)
        requires
            self.is_tree(),
        ensures
            forall|i: int|
                0 <= i < self.nodes@.len() ==> (self@.contains_key(#[trigger] self.paths@[i])
                    <==> self.nodes@[i].data is Some) && (self.nodes@[i].data is Some
                    ==> self@[self.paths@[i]] == self.nodes@[i].data->0),
            forall|p: Seq<Seq<char>>| #[trigger]
                self@.contains_key(p) ==> exists|i: int| self.holds(i, p),
    {
        assert forall|i: int| 0 <= i < self.nodes@.len() implies (self@.contains_key(
            #[trigger] self.paths@[i],
        ) <==> self.nodes@[i].data is Some) && (self.nodes@[i].data is Some
            ==> self@[self.paths@[i]] == self.nodes@[i].data->0) by {
            let p = self.paths@[i];
            if self.nodes@[i].data is Some {
                assert(self.holds(i, p));
            }
            if self.holder(p) is Some {
                let j = choose|j: int| self.holds(j, p);
                if i != j {
                    let a = if i < j {
                        i
                    } else {
                        j
                    };
                    let b = if i < j {
                        j
                    } else {
                        i
                    };
                    assert(self.paths@[a] != self.paths@[b]);
                }
            }
        }
    }

    /// A tree without values.
    pub fn new() -> (r: Self)
        ensures
            r.wf(),
            r@ == Map::<Seq<Seq<char>>, T>::empty(),
    {
        let mut nodes: Vec<TrieNode<T>> = Vec::new();
        nodes.push(TrieNode::new());
        let ghost root = Seq::<Seq<char>>::empty();
        let ghost only = Seq::<Seq<Seq<char>>>::empty().push(root);
        let r = Trie { nodes, paths: Ghost(only) };
        proof {
            r.lemma_view();
            assert(r@ =~= Map::empty()) by {
                assert forall|p: Seq<Seq<char>>| !r@.contains_key(p) by {
                    if r@.contains_key(p) {
                        let i = choose|i: int| r.holds(i, p);
                        assert(r.nodes@[i].data is Some);
                    }
                }
            }
        }
        r
    }

    /// Whether no domain is registered.
    pub fn is_empty(&self) -> (r: bool)
        requires
            self.wf(),
        ensures
            r == (self@.dom() =~= Set::empty()),
    {
        let r = self.nodes.len() == 1;
        proof {
            self.lemma_view();
            if r {
                assert forall|p: Seq<Seq<char>>| !self@.dom().contains(p) by {
                    if self@.contains_key(p) {
                        let i = choose|i: int| self.holds(i, p);
                        assert(i == 0);
                    }
                }
            } else {
                assert(self.is_needed(1));
                let k = choose|k: int|
                    0 <= k < self.nodes@.len() && (#[trigger] self.nodes@[k]).data is Some
                        && leads_to(self.paths@[1], self.paths@[k]);
                assert(self@.dom().contains(self.paths@[k]));
            }
        }
        r
    }

    /// The number of registered domains.
    pub fn len(&self) -> (r: usize)
        requires
            self.wf(),
        ensures
            self@.dom().finite(),
            r == self@.dom().len(),
    {
        let mut n: usize = 0;
        let mut i: usize = 0;
        let ghost mut seen: Set<Seq<Seq<char>>> = Set::empty();
        while i < self.nodes.len()
            invariant
                self.is_tree(),
                i <= self.nodes@.len(),
                n <= i,
                seen.finite(),
                seen.len() == n,
                forall|p: Seq<Seq<char>>| #[trigger]
                    seen.contains(p) <==> exists|k: int| k < i && self.holds(k, p),
            decreases self.nodes.len() - i,
        {
            if self.nodes[i].data.is_some() {
                let ghost path = self.paths@[i as int];
                proof {
                    if seen.contains(path) {
                        let k = choose|k: int| k < i && self.holds(k, path);
                        assert(self.paths@[k] != self.paths@[i as int]);
                    }
                    let more = seen.insert(path);
                    assert forall|p: Seq<Seq<char>>| #[trigger]
                        more.contains(p) <==> exists|k: int| k < i + 1 && self.holds(k, p) by {
                        if p == path {
                            assert(self.holds(i as int, p));
                        }
                        if seen.contains(p) {
                            let k = choose|k: int| k < i && self.holds(k, p);
                            assert(k < i + 1 && self.holds(k, p));
                        }
                    }
                    seen = more;
                }
                n = n + 1;
            } else {
                proof {
                    assert forall|p: Seq<Seq<char>>| #[trigger]
                        seen.contains(p) <==> exists|k: int| k < i + 1 && self.holds(k, p) by {
                        if seen.contains(p) {
                            let k = choose|k: int| k < i && self.holds(k, p);
                            assert(k < i + 1 && self.holds(k, p));
                        }
                    }
                }
            }
            i = i + 1;
        }
        proof {
            self.lemma_view();
            assert forall|p: Seq<Seq<char>>| seen.contains(p) <==> self@.dom().contains(p) by {
                if self@.dom().contains(p) {
                    let k = choose|k: int| self.holds(k, p);
                    assert(k < i && self.holds(k, p));
                }
                if seen.contains(p) {
                    let k = choose|k: int| k < i && self.holds(k, p);
                    assert(self@.contains_key(self.paths@[k]));
                }
            }
            assert(seen =~= self@.dom());
        }
        n
    }

    /// The number of nodes, the first included: one for each beginning of a
    /// registered label list.
    pub fn node_count(&self) -> (r: usize)
        requires
            self.wf(),
        ensures
            stems(self@).finite(),
            r == stems(self@).len(),
    {
        proof {
            self.lemma_view();
            let paths = self.paths@;
            assert(paths.no_duplicates());
            paths.unique_seq_to_set();
            assert forall|p: Seq<Seq<char>>| paths.to_set().contains(p) <==> stems(self@).contains(
                p,
            ) by {
                if paths.to_set().contains(p) {
                    let j = choose|j: int| 0 <= j < paths.len() && paths[j] == p;
                    if j > 0 {
                        assert(self.is_needed(j));
                        let k = choose|k: int|
                            0 <= k < self.nodes@.len() && (#[trigger] self.nodes@[k]).data is Some
                                && leads_to(self.paths@[j], self.paths@[k]);
                        assert(self@.contains_key(self.paths@[k]));
                    }
                }
                if stems(self@).contains(p) {
                    if p.len() == 0 {
                        assert(paths[0] =~= p);
                    } else {
                        let q = choose|q: Seq<Seq<char>>| #[trigger]
                            self@.contains_key(q) && leads_to(p, q);
                        let k = choose|k: int| self.holds(k, q);
                        self.lemma_closed(k, p.len() as int);
                    }
                }
            }
            assert(paths.to_set() =~= stems(self@));
        }
        self.nodes.len()
    }

    /// The beginnings of a path are paths.
    proof fn lemma_closed(&self, k: int, n: int)
        requires
            self.is_tree(),
            0 <= k < self.nodes@.len(),
            0 <= n <= self.paths@[k].len(),
        ensures
            self.paths@.contains(self.paths@[k].take(n)),
        decreases self.paths@[k].len() - n,
    {
        let q = self.paths@[k];
        if n == q.len() {
            assert(q.take(n) =~= q);
        } else {
            assert(k > 0);
            assert(self.has_parent(k));
            let j = choose|j: int| 0 <= j < self.paths@.len() && self.paths@[j] == q.drop_last();
            self.lemma_closed(j, n);
            assert(q.drop_last().take(n) =~= q.take(n));
        }
    }
}

/// The labels of a domain from the last to the first, as far as they are not empty.
fn labels_of(domain: &str) -> (r: Vec<String>)
    ensures
        crate::text::texts(r@) == labels(domain@),
{
    let v = to_chars(domain);
    let parts = split_at_char(&v, '.');
    let ghost all = crate::text::split(domain@, '.');
    let mut out: Vec<String> = Vec::new();
    let mut n: usize = parts.len();
    assert(all.take(n as int) =~= all);
    assert(crate::text::texts(out@) + from_the_end(all.take(n as int)) =~= labels(domain@));
    while n > 0
        invariant
            n <= parts@.len(),
            all == crate::text::vec_texts(parts@),
            crate::text::texts(out@) + from_the_end(all.take(n as int)) == labels(domain@),
        decreases n,
    {
        let ghost now = all.take(n as int);
        let ghost before = crate::text::texts(out@);
        assert(now.last() == parts@[n - 1]@);
        if parts[n - 1].len() == 0 {
            assert(before + seq![] =~= before);
            return out;
        }
        let label = to_text(&parts[n - 1]);
        let ghost text = label@;
        out.push(label);
        proof {
            assert(now.drop_last() =~= all.take(n - 1));
            assert(crate::text::texts(out@) =~= before.push(text));
            assert(crate::text::texts(out@) + from_the_end(all.take(n - 1)) =~= before
                + from_the_end(now));
        }
        n = n - 1;
    }
    assert(all.take(0) =~= seq![]);
    assert(crate::text::texts(out@) + seq![] =~= crate::text::texts(out@));
    out
}

impl<T> Trie<T> {
    /// Whether node `j` leads to a node with a value, or to `target`.
    spec fn is_needed_for(&self, j: int, target: Seq<Seq<char>>) -> bool {
        self.is_needed(j) || leads_to(self.paths@[j], target)
    }

    /// The child of node `at` with the label `label`, made if it is missing.
    fn descend(&mut self, at: usize, label: &String, Ghost(target): Ghost<Seq<Seq<char>>>) -> (r:
        usize)
        requires
            old(self).is_tree(),
            at < old(self).nodes@.len(),
            leads_to(old(self).paths@[at as int].push(label@), target),
            forall|j: int|
                0 < j < old(self).nodes@.len() ==> #[trigger] old(self).is_needed_for(j, target),
        ensures
            final(self).is_tree(),
            r < final(self).nodes@.len(),
            r > 0,
            final(self).paths@[r as int] == old(self).paths@[at as int].push(label@),
            final(self)@ == old(self)@,
            forall|j: int|
                0 < j < final(self).nodes@.len() ==> #[trigger] final(self).is_needed_for(j, target),
    {
        let ghost path = self.paths@[at as int].push(label@);
        match self.nodes[at].children.get(label.as_str()) {
            Some(k) => {
                let k: usize = *k;
                assert(self.paths@[k as int].len() > 0);
                return k;
            },
            None => {},
        }
        let ghost before = *self;
        let k: usize = self.nodes.len();
        self.nodes[at].children.insert(label.clone(), k);
        let ghost node = self.nodes@[at as int];
        self.nodes.push(TrieNode::new());
        proof {
            self.paths@ = self.paths@.push(path);
            assert(self.nodes@ =~= before.nodes@.update(at as int, node).push(
                self.nodes@[k as int],
            ));
            assert(!before.paths@.contains(path)) by {
                if before.paths@.contains(path) {
                    let j = choose|j: int| 0 <= j < before.paths@.len() && before.paths@[j] == path;
                    assert(j > 0);
                    assert(path.drop_last() =~= before.paths@[at as int]);
                    assert(before.nodes@[at as int].children@.contains_key(before.paths@[j].last()));
                }
            }
            lemma_grown(before, *self, at as int, label@, k);
            assert(self.paths@.drop_last() =~= before.paths@);
            lemma_grown_view(before, *self, k as int);
            assert forall|j: int| 0 < j < self.nodes@.len() implies #[trigger] self.is_needed_for(
                j,
                target,
            ) by {
                if j < k {
                    assert(before.is_needed_for(j, target));
                    assert(self.paths@[j] == before.paths@[j]);
                    if before.is_needed(j) {
                        let q = choose|q: int|
                            0 <= q < before.nodes@.len() && (#[trigger] before.nodes@[q]).data is Some
                                && leads_to(before.paths@[j], before.paths@[q]);
                        assert(self.nodes@[q].data is Some);
                        assert(self.paths@[q] == before.paths@[q]);
                        assert(self.is_needed(j));
                    }
                } else {
                    assert(self.paths@[j] == path);
                }
            }
        }
        k
    }

    /// Registers `domain` with `value`, in place of an earlier value. A domain whose
    /// last label is empty is not registered.
    pub fn insert(&mut self, domain: &str, value: T)
        requires
            old(self).wf(),
        ensures
            final(self).wf(),
            labels(domain@).len() == 0 ==> final(self)@ == old(self)@,
            labels(domain@).len() > 0 ==> final(self)@ == old(self)@.insert(labels(domain@), value),
    {
        let path = labels_of(domain);
        let ghost target = labels(domain@);
        assert(target.len() == path@.len());
        if path.len() == 0 {
            return ;
        }
        let ghost before = self@;
        let mut at: usize = 0;
        let mut i: usize = 0;
        proof {
            assert(self.paths@[0] =~= target.take(0));
            assert forall|j: int| 0 < j < self.nodes@.len() implies #[trigger] self.is_needed_for(
                j,
                target,
            ) by {
                assert(self.is_needed(j));
            }
        }
        while i < path.len()
            invariant
                i <= path@.len(),
                target == crate::text::texts(path@),
                self.is_tree(),
                self@ == before,
                at < self.nodes@.len(),
                i > 0 ==> at > 0,
                self.paths@[at as int] == target.take(i as int),
                forall|j: int|
                    0 < j < self.nodes@.len() ==> #[trigger] self.is_needed_for(j, target),
            decreases path.len() - i,
        {
            proof {
                assert(target.take(i + 1) =~= target.take(i as int).push(target[i as int]));
                assert(target.take(target.take(i + 1).len() as int) =~= target.take(i + 1));
            }
            at = self.descend(at, &path[i], Ghost(target));
            i = i + 1;
        }
        assert(target.take(i as int) =~= target);
        let ghost old_self = *self;
        self.nodes[at].data = Some(value);
        proof {
            let node = self.nodes@[at as int];
            assert(self.nodes@ =~= old_self.nodes@.update(at as int, node));
            lemma_filled(old_self, *self, at as int, target, value);
        }
    }

    /// The value of the longest registered end of `domain`, none if no end of it is
    /// registered.
    pub fn find_longest_suffix_match(&self, domain: &str) -> (r: Option<&T>)
        requires
            self.wf(),
        ensures
            match r {
                Some(v) => deepest(self@, labels(domain@), labels(domain@).len() as int) == Some(
                    *v,
                ),
                None => deepest(self@, labels(domain@), labels(domain@).len() as int) is None,
            },
    {
        let path = labels_of(domain);
        let ghost p = labels(domain@);
        assert(p.len() == path@.len());
        let mut at: usize = 0;
        let mut best: Option<&T> = None;
        let mut i: usize = 0;
        proof {
            self.lemma_view();
            assert(self.paths@[0] =~= p.take(0));
            assert(deepest(self@, p, -1) is None);
            assert(deepest(self@, p, 0) is None);
        }
        while i < path.len()
            invariant
                i <= path@.len(),
                p == crate::text::texts(path@),
                p == labels(domain@),
                self.is_tree(),
                at < self.nodes@.len(),
                self.paths@[at as int] == p.take(i as int),
                match best {
                    Some(v) => deepest(self@, p, i as int) == Some(*v),
                    None => deepest(self@, p, i as int) is None,
                },
            decreases path.len() - i,
        {
            proof {
                self.lemma_view();
                assert(p.take(i + 1) =~= p.take(i as int).push(p[i as int]));
            }
            match self.nodes[at].children.get(path[i].as_str()) {
                Some(k) => {
                    at = *k;
                    if self.nodes[at].data.is_some() {
                        best = self.nodes[at].data.as_ref();
                    }
                },
                None => {
                    proof {
                        self.lemma_stops(at as int, p, i as int, p.len() as int);
                    }
                    return best;
                },
            }
            i = i + 1;
        }
        best
    }

    /// Where the tree has no node for the next label, nothing deeper is registered.
    proof fn lemma_stops(&self, at: int, p: Seq<Seq<char>>, i: int, n: int)
        requires
            self.is_tree(),
            0 <= at < self.nodes@.len(),
            0 <= i < p.len(),
            i <= n <= p.len(),
            self.paths@[at] == p.take(i),
            !self.nodes@[at].children@.contains_key(p[i]),
        ensures
            deepest(self@, p, n) == deepest(self@, p, i),
        decreases n,
    {
        if n > i {
            self.lemma_stops(at, p, i, n - 1);
            self.lemma_view();
            if self@.contains_key(p.take(n)) {
                let k = choose|k: int| self.holds(k, p.take(n));
                self.lemma_closed(k, i + 1);
                assert(p.take(n).take(i + 1) =~= p.take(i + 1));
                let j = choose|j: int|
                    0 <= j < self.paths@.len() && self.paths@[j] == p.take(i + 1);
                assert(j > 0);
                assert(self.paths@[j].drop_last() =~= p.take(i));
                assert(self.paths@[j].last() == p[i]);
                assert(self.nodes@[at].children@.contains_key(self.paths@[j].last()));
            }
        }
    }
}

/// A tree that grew by one node is a tree.
proof fn lemma_grown<T>(a: Trie<T>, b: Trie<T>, at: int, label: Seq<char>, k: usize)
    requires
        a.is_tree(),
        0 <= at < a.nodes@.len(),
        k == a.nodes@.len(),
        b.nodes@.len() == k + 1,
        b.paths@ == a.paths@.push(a.paths@[at].push(label)),
        !a.paths@.contains(a.paths@[at].push(label)),
        b.nodes@[at].children@ == a.nodes@[at].children@.insert(label, k),
        b.nodes@[at].data == a.nodes@[at].data,
        b.nodes@[k as int].children@ == Map::<Seq<char>, usize>::empty(),
        forall|i: int| 0 <= i < k && i != at ==> b.nodes@[i] == a.nodes@[i],
    ensures
        b.is_tree(),
{
    let path = a.paths@[at].push(label);
    assert forall|i: int, j: int| 0 <= i < j < b.paths@.len() implies b.paths@[i]
        != b.paths@[j] by {
        if j == k {
            assert(a.paths@.contains(a.paths@[i]));
        }
    }
    assert forall|i: int, l: Seq<char>|
        0 <= i < b.nodes@.len() && #[trigger] b.nodes@[i].children@.contains_key(l) implies ({
        let j = b.nodes@[i].children@[l];
        j < b.nodes@.len() && b.paths@[j as int] == b.paths@[i].push(l)
    }) by {
        if i < k {
            if i == at && l == label {
                assert(b.paths@[k as int] == path);
            } else {
                assert(a.nodes@[i].children@.contains_key(l));
                let j = a.nodes@[i].children@[l];
                assert(b.paths@[j as int] == a.paths@[j as int]);
            }
        }
    }
    assert forall|i: int, j: int|
        #![trigger b.nodes@[i], b.paths@[j]]
        0 <= i < b.nodes@.len() && 0 < j < b.nodes@.len() && b.paths@[j].len() > 0
            && b.paths@[j].drop_last() == b.paths@[i] implies b.nodes@[i].children@.contains_key(
        b.paths@[j].last(),
    ) by {
        if j < k && i < k {
            assert(a.paths@[j].drop_last() == a.paths@[i]);
            assert(a.nodes@[i].children@.contains_key(a.paths@[j].last()));
        } else if j == k {
            assert(path.drop_last() =~= a.paths@[at]);
            if i != at {
                let x = if i < at {
                    i
                } else {
                    at
                };
                let y = if i < at {
                    at
                } else {
                    i
                };
                if i < k {
                    assert(a.paths@[x] != a.paths@[y]);
                } else {
                    assert(path.len() == a.paths@[at].len() + 1);
                }
            }
        } else {
            assert(b.paths@[i] == path);
            assert(a.has_parent(j));
        }
    }
    assert forall|j: int| 0 < j < b.nodes@.len() implies #[trigger] b.has_parent(j) by {
        if j < k {
            assert(a.has_parent(j));
            let q = choose|q: int|
                0 <= q < a.paths@.len() && a.paths@[q] == a.paths@[j].drop_last();
            assert(b.paths@[q] == b.paths@[j].drop_last());
        } else {
            assert(path.drop_last() =~= a.paths@[at]);
            assert(b.paths@[at] == path.drop_last());
        }
    }
}

/// A node without a value adds nothing to the map.
proof fn lemma_grown_view<T>(a: Trie<T>, b: Trie<T>, k: int)
    requires
        a.is_tree(),
        b.is_tree(),
        k == a.nodes@.len(),
        b.nodes@.len() == k + 1,
        b.paths@.drop_last() == a.paths@,
        b.nodes@[k].data is None,
        forall|i: int| 0 <= i < k ==> (#[trigger] b.nodes@[i]).data == a.nodes@[i].data,
    ensures
        a@ == b@,
{
    a.lemma_view();
    b.lemma_view();
    assert forall|p: Seq<Seq<char>>| a@.contains_key(p) == b@.contains_key(p) by {
        if a@.contains_key(p) {
            let i = choose|i: int| a.holds(i, p);
            assert(b.paths@[i] == b.paths@.drop_last()[i]);
            assert(b.holds(i, p));
        }
        if b@.contains_key(p) {
            let i = choose|i: int| b.holds(i, p);
            assert(i < k);
            assert(b.paths@[i] == b.paths@.drop_last()[i]);
            assert(a.holds(i, p));
        }
    }
    assert forall|p: Seq<Seq<char>>| a@.contains_key(p) implies a@[p] == b@[p] by {
        let i = choose|i: int| a.holds(i, p);
        assert(b.paths@[i] == b.paths@.drop_last()[i]);
        assert(a.paths@[i] == p);
    }
    assert(a@ =~= b@);
}

/// A value at a node is an entry of the map.
proof fn lemma_filled<T>(a: Trie<T>, b: Trie<T>, at: int, target: Seq<Seq<char>>, value: T)
    requires
        a.is_tree(),
        0 < at < a.nodes@.len(),
        a.paths@[at] == target,
        b.paths@ == a.paths@,
        b.nodes@.len() == a.nodes@.len(),
        b.nodes@[at].children@ == a.nodes@[at].children@,
        b.nodes@[at].data == Some(value),
        forall|i: int| 0 <= i < a.nodes@.len() && i != at ==> b.nodes@[i] == a.nodes@[i],
        forall|j: int| 0 < j < a.nodes@.len() ==> #[trigger] a.is_needed_for(j, target),
    ensures
        b.wf(),
        b@ == a@.insert(target, value),
{
    assert forall|i: int, l: Seq<char>|
        0 <= i < b.nodes@.len() && #[trigger] b.nodes@[i].children@.contains_key(l) implies ({
        let j = b.nodes@[i].children@[l];
        j < b.nodes@.len() && b.paths@[j as int] == b.paths@[i].push(l)
    }) by {
        assert(a.nodes@[i].children@.contains_key(l));
    }
    assert forall|i: int, j: int|
        #![trigger b.nodes@[i], b.paths@[j]]
        0 <= i < b.nodes@.len() && 0 < j < b.nodes@.len() && b.paths@[j].len() > 0
            && b.paths@[j].drop_last() == b.paths@[i] implies b.nodes@[i].children@.contains_key(
        b.paths@[j].last(),
    ) by {
        assert(a.nodes@[i].children@.contains_key(a.paths@[j].last()));
    }
    assert forall|j: int| 0 < j < b.nodes@.len() implies #[trigger] b.has_parent(j) by {
        assert(a.has_parent(j));
    }
    assert(b.is_tree());
    assert forall|j: int| 0 < j < b.nodes@.len() implies #[trigger] b.is_needed(j) by {
        assert(a.is_needed_for(j, target));
        if a.is_needed(j) {
            let k = choose|k: int|
                0 <= k < a.nodes@.len() && (#[trigger] a.nodes@[k]).data is Some && leads_to(
                    a.paths@[j],
                    a.paths@[k],
                );
            assert(b.nodes@[k].data is Some);
        } else {
            assert(b.nodes@[at].data is Some);
        }
    }
    a.lemma_view();
    b.lemma_view();
    let m = a@.insert(target, value);
    assert forall|p: Seq<Seq<char>>| m.contains_key(p) == b@.contains_key(p) by {
        if p == target {
            assert(b@.contains_key(b.paths@[at]));
        } else {
            if a@.contains_key(p) {
                let i = choose|i: int| a.holds(i, p);
                assert(b.holds(i, p));
                assert(b@.contains_key(b.paths@[i]));
            }
            if b@.contains_key(p) {
                let i = choose|i: int| b.holds(i, p);
                assert(a.holds(i, p));
                assert(a@.contains_key(a.paths@[i]));
            }
        }
    }
    assert forall|p: Seq<Seq<char>>| m.contains_key(p) implies m[p] == b@[p] by {
        if p == target {
            assert(b@[b.paths@[at]] == value);
        } else {
            let i = choose|i: int| a.holds(i, p);
            assert(a.paths@[i] == p);
            assert(b@[b.paths@[i]] == b.nodes@[i].data->0);
        }
    }
    assert(m =~= b@);
}

impl<T> Default for Trie<T> {
    fn default() -> (r: Self)
        ensures
            r.wf(),
            r@ == Map::<Seq<Seq<char>>, T>::empty(),
    {
        Trie::new()
    }
}

// ---------------------------------------------------------------------------
// Laws
// ---------------------------------------------------------------------------
impl<T> Trie<T> {
    /// Nothing is ever registered under the empty label list.
    pub proof fn no_value_at_the_root(&self)
        requires
            self.wf(),
        ensures
            !self@.contains_key(Seq::empty()),
    {
        self.lemma_view();
        assert(self.paths@[0] =~= Seq::empty());
    }
}

/// A domain all of whose labels are non-empty.
pub open spec fn proper(domain: Seq<char>) -> bool {
    forall|i: int|
        0 <= i < crate::text::split(domain, '.').len() ==> (#[trigger] crate::text::split(
            domain,
            '.',
        )[i]).len() > 0
}

/// The label list of pieces that are all non-empty with one more piece in front.
proof fn lemma_one_more(first: Seq<char>, rest: Seq<Seq<char>>)
    requires
        first.len() > 0,
        forall|i: int| 0 <= i < rest.len() ==> (#[trigger] rest[i]).len() > 0,
    ensures
        from_the_end(seq![first] + rest) == from_the_end(rest).push(first),
    decreases rest.len(),
{
    let all = seq![first] + rest;
    if rest.len() == 0 {
        assert(all.drop_last() =~= seq![]);
        assert(from_the_end(all.drop_last()) =~= seq![]);
        assert(from_the_end(rest) =~= seq![]);
        assert(from_the_end(all) =~= seq![first]);
        assert(from_the_end(rest).push(first) =~= seq![first]);
    } else {
        let init = rest.drop_last();
        assert forall|i: int| 0 <= i < init.len() implies (#[trigger] init[i]).len() > 0 by {
            assert(init[i] == rest[i]);
        }
        assert(rest[rest.len() - 1].len() > 0);
        lemma_one_more(first, init);
        assert(all.drop_last() =~= seq![first] + init);
        assert(all.last() == rest.last());
        assert(from_the_end(all) =~= from_the_end(rest).push(first));
    }
}

/// Looking a domain up in a tree gives what walking over its parents in a table of
/// the same domains gives: the value of the longest registered end.
pub proof fn tree_agrees_with_walk<T>(
    m: Map<Seq<Seq<char>>, T>,
    names: Map<Seq<char>, T>,
    domain: Seq<char>,
)
    requires
        proper(domain),
        !m.contains_key(Seq::empty()),
        forall|d: Seq<char>| #[trigger]
            proper(d) ==> (names.contains_key(d) <==> m.contains_key(labels(d))) && (
            names.contains_key(d) ==> names[d] == m[labels(d)]),
    ensures
        deepest(m, labels(domain), labels(domain).len() as int) == crate::dns::matcher::nearest(
            names,
            crate::dns::matcher::parents(domain),
        ),
    decreases domain.len(),
{
    crate::text::lemma_find(domain, '.');
    let n = crate::text::find(domain, '.');
    let parts = crate::text::split(domain, '.');
    let path = labels(domain);
    let all = crate::dns::matcher::parents(domain);
    assert(all[0] == domain);
    assert(path.take(path.len() as int) =~= path);
    assert(parts[0].len() > 0);
    if n < domain.len() {
        let rest = domain.skip(n + 1);
        let tail = crate::text::split(rest, '.');
        assert forall|i: int| 0 <= i < tail.len() implies (#[trigger] tail[i]).len() > 0 by {
            assert(tail[i] == parts[i + 1]);
        }
        assert(proper(rest));
        tree_agrees_with_walk(m, names, rest);
        assert(parts =~= seq![parts[0]] + tail);
        lemma_one_more(parts[0], tail);
        assert(path =~= labels(rest).push(parts[0]));
        assert(all.skip(1) =~= crate::dns::matcher::parents(rest));
        assert(path.take(labels(rest).len() as int) =~= labels(rest));
        lemma_deepest_prefix(m, labels(rest), path, labels(rest).len() as int);
    } else {
        assert(parts =~= seq![domain]);
        assert(parts.drop_last() =~= seq![]);
        assert(from_the_end(parts.drop_last()) =~= seq![]);
        assert(path =~= seq![domain]);
        assert(path.take(0) =~= Seq::empty());
        assert(deepest(m, path, -1) is None);
        assert(deepest(m, path, 0) is None);
        assert(all.skip(1) =~= seq![]);
        assert(crate::dns::matcher::nearest(names, all.skip(1)) is None);
    }
}

/// Only the labels that are looked at count.
proof fn lemma_deepest_prefix<T>(
    m: Map<Seq<Seq<char>>, T>,
    p: Seq<Seq<char>>,
    q: Seq<Seq<char>>,
    n: int,
)
    requires
        leads_to(p, q),
        n <= p.len(),
    ensures
        deepest(m, p, n) == deepest(m, q, n),
    decreases n + 1,
{
    if n >= 0 {
        assert(p.take(n) =~= q.take(n));
        lemma_deepest_prefix(m, p, q, n - 1);
    }
}

/// A registered domain answers for itself, and for every domain under it that has no
/// nearer registered end.
pub proof fn registered_domain_answers<T>(
    m: Map<Seq<Seq<char>>, T>,
    registered: Seq<char>,
    domain: Seq<char>,
)
    requires
        m.contains_key(labels(registered)),
        leads_to(labels(registered), labels(domain)),
    ensures
        deepest(m, labels(domain), labels(domain).len() as int) is Some,
        labels(registered) == labels(domain) ==> deepest(
            m,
            labels(domain),
            labels(domain).len() as int,
        ) == Some(m[labels(registered)]),
{
    let p = labels(domain);
    assert(p.take(p.len() as int) =~= p);
    lemma_deepest_some(m, p, labels(registered).len() as int, p.len() as int);
}

proof fn lemma_deepest_some<T>(m: Map<Seq<Seq<char>>, T>, p: Seq<Seq<char>>, k: int, n: int)
    requires
        0 <= k <= n,
        m.contains_key(p.take(k)),
    ensures
        deepest(m, p, n) is Some,
    decreases n,
{
    if k < n {
        lemma_deepest_some(m, p, k, n - 1);
    }
}

} // verus!
