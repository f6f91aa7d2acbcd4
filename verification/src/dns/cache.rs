//! The answers that are remembered.
use vstd::prelude::*;
use vstd::string::*;

use lru::LruCache;

verus! {

broadcast use vstd::string::group_string_axioms;

/// `lru::LruCache`: a table of bounded size that forgets what was used least recently.
#[verifier::external_type_specification]
#[verifier::external_body]
#[verifier::reject_recursive_types(K)]
#[verifier::reject_recursive_types(V)]
#[verifier::reject_recursive_types(S)]
pub struct ExLruCache<K, V, S>(lru::LruCache<K, V, S>);

/// `lru::DefaultHasher`: how the table spreads its keys.
#[verifier::external_type_specification]
#[verifier::external_body]
pub struct ExDefaultHasher(lru::DefaultHasher);

/// A remembered answer: the record, and the point in time from which it no longer
/// counts, in nanoseconds.
#[derive(Debug, Clone, PartialEq, Eq)]
pub struct CacheEntry {
    pub record: Vec<u8>,
    pub expires: u128,
}

/// What an entry holds, with its key.
#[verifier::ext_equal]
pub struct Remembered {
    pub key: Seq<char>,
    pub record: Seq<u8>,
    pub expires: u128,
}

/// The entries of a table, the one used last first.
pub uninterp spec fn cache_items(c: LruCache<String, CacheEntry>) -> Seq<Remembered>;

/// How many entries a table can hold.
pub uninterp spec fn cache_limit(c: LruCache<String, CacheEntry>) -> nat;

/// The entry under a key.
pub open spec fn find_item(items: Seq<Remembered>, key: Seq<char>) -> Option<Remembered>
    decreases items.len(),
{
    if items.len() == 0 {
        None
    } else if items[0].key == key {
        Some(items[0])
    } else {
        find_item(items.skip(1), key)
    }
}

/// The entries without the one under a key.
pub open spec fn without_key(items: Seq<Remembered>, key: Seq<char>) -> Seq<Remembered>
    decreases items.len(),
{
    if items.len() == 0 {
        seq![]
    } else if items.last().key == key {
        without_key(items.drop_last(), key)
    } else {
        without_key(items.drop_last(), key).push(items.last())
    }
}

/// The entries with a new one in front, in place of the one under its key; where that
/// makes too many, the last is forgotten.
pub open spec fn with_item(items: Seq<Remembered>, limit: nat, x: Remembered) -> Seq<Remembered> {
    let all = seq![x] + without_key(items, x.key);
    if all.len() > limit {
        all.take(limit as int)
    } else {
        all
    }
}

/// `lru::LruCache::new`. The call reserves room for all entries at once, and panics
/// where so much room cannot be addressed.
#[verifier::external_body]
fn lru_new(limit: usize) -> (r: LruCache<String, CacheEntry>)
    requires
        0 < limit <= usize::MAX / 128,
    ensures
        cache_items(r) == Seq::<Remembered>::empty(),
        cache_limit(r) == limit,
{
    LruCache::new(std::num::NonZeroUsize::new(limit).unwrap())
}

/// `lru::LruCache::peek`: the entry under a key, without counting that as a use.
#[verifier::external_body]
fn lru_peek<'a>(c: &'a LruCache<String, CacheEntry>, key: &str) -> (r: Option<&'a CacheEntry>)
    ensures
        match r {
            Some(e) => find_item(cache_items(*c), key@) == Some(
                (Remembered { key: key@, record: e.record@, expires: e.expires }),
            ),
            None => find_item(cache_items(*c), key@) is None,
        },
{
    c.peek(key)
}

/// `lru::LruCache::pop`: forgets the entry under a key; the others keep their places.
#[verifier::external_body]
fn lru_pop(c: &mut LruCache<String, CacheEntry>, key: &str)
    ensures
        cache_items(*final(c)) == without_key(cache_items(*old(c)), key@),
        cache_limit(*final(c)) == cache_limit(*old(c)),
{
    c.pop(key);
}

/// `lru::LruCache::put`: the new entry comes first, in place of an earlier one under
/// its key; a full table forgets its last entry for it.
#[verifier::external_body]
fn lru_put(c: &mut LruCache<String, CacheEntry>, key: String, e: CacheEntry)
    ensures
        cache_items(*final(c)) == with_item(
            cache_items(*old(c)),
            cache_limit(*old(c)),
            (Remembered { key: key@, record: e.record@, expires: e.expires }),
        ),
        cache_limit(*final(c)) == cache_limit(*old(c)),
{
    c.put(key, e);
}

/// `lru::LruCache::clear`: forgets everything, and can hold as much as before.
#[verifier::external_body]
fn lru_clear(c: &mut LruCache<String, CacheEntry>)
    ensures
        cache_items(*final(c)) == Seq::<Remembered>::empty(),
        cache_limit(*final(c)) == cache_limit(*old(c)),
{
    c.clear();
}

/// `lru::LruCache::cap`: how many entries the table can hold.
#[verifier::external_body]
fn lru_cap(c: &LruCache<String, CacheEntry>) -> (r: usize)
    ensures
        r == cache_limit(*c),
{
    c.cap().get()
}

/// The answers that are remembered, by the name and type that was asked for.
pub struct AnswerCache {
    table: LruCache<String, CacheEntry>,
}

/// No key twice.
pub open spec fn keys_differ(items: Seq<Remembered>) -> bool {
    forall|i: int, j: int|
        0 <= i < j < items.len() ==> (#[trigger] items[i]).key != (#[trigger] items[j]).key
}

impl AnswerCache {
    /// The answers, the one put in last first.
    pub closed spec fn items(&self) -> Seq<Remembered> {
        cache_items(self.table)
    }

    /// How many answers can be remembered.
    pub closed spec fn limit(&self) -> nat {
        cache_limit(self.table)
    }

    /// No key twice, and no more answers than can be remembered, of which there is at
    /// least one.
    pub open spec fn wf(&self) -> bool {
        keys_differ(self.items()) && self.items().len() <= self.limit() && self.limit() > 0
    }

    /// Nothing is remembered yet. At least one answer can be.
    pub fn new(size: usize) -> (r: Self)
        requires
            size <= usize::MAX / 128,
        ensures
            r.wf(),
            r.items() == Seq::<Remembered>::empty(),
            r.limit() == if size == 0 {
                1
            } else {
                size as nat
            },
    {
        let limit: usize = if size == 0 {
            1
        } else {
            size
        };
        AnswerCache { table: lru_new(limit) }
    }

    /// The answer under a key, as long as it counts. An answer that no longer counts is
    /// forgotten.
    pub fn fresh(&mut self, key: &str, now: u128) -> (r: Option<Vec<u8>>)
        requires
            old(self).wf(),
        ensures
            final(self).wf(),
            final(self).limit() == old(self).limit(),
            final(self).items() == swept(old(self).items(), key@, now),
            match find_item(old(self).items(), key@) {
                Some(x) => if x.expires > now {
                    r matches Some(v) && v@ == x.record
                } else {
                    r is None
                },
                None => r is None,
            },
    {
        let stale = match lru_peek(&self.table, key) {
            Some(e) => {
                if e.expires > now {
                    return Some(copy_bytes(&e.record));
                }
                true
            },
            None => false,
        };
        if stale {
            proof {
                lemma_without(self.items(), key@);
            }
            lru_pop(&mut self.table, key);
        }
        None
    }

    /// Remembers an answer.
    pub fn put(&mut self, key: String, record: Vec<u8>, expires: u128)
        requires
            old(self).wf(),
        ensures
            final(self).wf(),
            final(self).limit() == old(self).limit(),
            final(self).items() == with_item(
                old(self).items(),
                old(self).limit(),
                (Remembered { key: key@, record: record@, expires }),
            ),
    {
        proof {
            lemma_with_item(
                self.items(),
                self.limit(),
                Remembered { key: key@, record: record@, expires },
            );
        }
        lru_put(&mut self.table, key, CacheEntry { record, expires });
    }

    /// Forgets everything.
    pub fn clear(&mut self)
        ensures
            final(self).items() == Seq::<Remembered>::empty(),
            final(self).limit() == old(self).limit(),
            old(self).wf() ==> final(self).wf(),
    {
        lru_clear(&mut self.table);
    }

    /// How many answers can be remembered.
    pub fn capacity(&self) -> (r: usize)
        ensures
            r == self.limit(),
    {
        lru_cap(&self.table)
    }
}

/// The entries without the one under a key, if that no longer counts.
pub open spec fn swept(items: Seq<Remembered>, key: Seq<char>, now: u128) -> Seq<Remembered> {
    match find_item(items, key) {
        Some(x) => if x.expires > now {
            items
        } else {
            without_key(items, key)
        },
        None => items,
    }
}

/// A copy of some bytes.
pub fn copy_bytes(v: &[u8]) -> (r: Vec<u8>)
    ensures
        r@ == v@,
{
    let mut out: Vec<u8> = Vec::new();
    let mut i: usize = 0;
    while i < v.len()
        invariant
            i <= v@.len(),
            out@ == v@.take(i as int),
        decreases v.len() - i,
    {
        assert(v@.take(i + 1) =~= v@.take(i as int).push(v@[i as int]));
        out.push(v[i]);
        i = i + 1;
    }
    assert(v@.take(i as int) =~= v@);
    out
}

/// What is left without a key has that key no longer, and everything else still.
pub proof fn lemma_without(items: Seq<Remembered>, key: Seq<char>)
    requires
        keys_differ(items),
    ensures
        keys_differ(without_key(items, key)),
        without_key(items, key).len() <= items.len(),
        forall|i: int|
            0 <= i < without_key(items, key).len() ==> (#[trigger] without_key(items, key)[i]).key
                != key,
        forall|x: Remembered| #[trigger]
            without_key(items, key).contains(x) <==> items.contains(x) && x.key != key,
        (exists|i: int| 0 <= i < items.len() && (#[trigger] items[i]).key == key) ==> without_key(
            items,
            key,
        ).len() < items.len(),
    decreases items.len(),
{
    if items.len() > 0 {
        let init = items.drop_last();
        let last = items.last();
        lemma_without(init, key);
        let a = without_key(init, key);
        let b = without_key(items, key);
        assert forall|x: Remembered| #[trigger]
            b.contains(x) <==> items.contains(x) && x.key != key by {
            assert(a.contains(x) <==> init.contains(x) && x.key != key);
            if items.contains(x) {
                let i = choose|i: int| 0 <= i < items.len() && items[i] == x;
                if i < init.len() {
                    assert(init[i] == x);
                }
            }
            if init.contains(x) {
                let i = choose|i: int| 0 <= i < init.len() && init[i] == x;
                assert(items[i] == x);
            }
            if b.contains(x) {
                let i = choose|i: int| 0 <= i < b.len() && b[i] == x;
                if i < a.len() {
                    assert(a[i] == x);
                } else {
                    assert(items[items.len() - 1] == x);
                }
            }
            if a.contains(x) {
                let i = choose|i: int| 0 <= i < a.len() && a[i] == x;
                assert(b[i] == x);
            }
            if last.key != key {
                assert(b[a.len() as int] == last);
            }
        }
        assert forall|i: int, j: int| 0 <= i < j < b.len() implies (#[trigger] b[i]).key != (
        #[trigger] b[j]).key by {
            if j == a.len() {
                assert(a.contains(a[i]));
                let q = choose|q: int| 0 <= q < init.len() && init[q] == a[i];
                assert(items[q].key != items[items.len() - 1].key);
            }
        }
        if exists|i: int| 0 <= i < items.len() && (#[trigger] items[i]).key == key {
            let i = choose|i: int| 0 <= i < items.len() && (#[trigger] items[i]).key == key;
            if i < init.len() {
                assert(init[i].key == key);
            }
        }
    }
}

/// Putting an entry in keeps the keys apart and the number within the limit.
pub proof fn lemma_with_item(items: Seq<Remembered>, limit: nat, x: Remembered)
    requires
        keys_differ(items),
        items.len() <= limit,
        limit > 0,
    ensures
        keys_differ(with_item(items, limit, x)),
        with_item(items, limit, x).len() <= limit,
        find_item(with_item(items, limit, x), x.key) == Some(x),
{
    lemma_without(items, x.key);
    let rest = without_key(items, x.key);
    let all = seq![x] + rest;
    let r = with_item(items, limit, x);
    assert(r[0] == x);
    assert forall|i: int, j: int| 0 <= i < j < r.len() implies (#[trigger] r[i]).key != (
    #[trigger] r[j]).key by {
        assert(r[j] == rest[j - 1]);
        if i > 0 {
            assert(r[i] == rest[i - 1]);
        }
    }
}

/// What was put in is found, with the time until which it counts.
pub proof fn remembered_is_found(items: Seq<Remembered>, limit: nat, x: Remembered)
    requires
        keys_differ(items),
        items.len() <= limit,
        limit > 0,
    ensures
        find_item(with_item(items, limit, x), x.key) == Some(x),
{
    lemma_with_item(items, limit, x);
}

} // verus!
