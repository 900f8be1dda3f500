//! A bounded store of responses with least-recently-used eviction, kept in
//! a `cached::SizedCache`.
//!
//! The contents are modelled as a sequence of (key, response) pairs, the most
//! recently used first. Reading an entry and writing one both move it to the
//! front; when a new key would push the store past its capacity, the entry
//! at the back leaves.

use vstd::prelude::*;

use cached::{Cached, SizedCache};

use crate::message::{Response, ResponseView};

verus! {

#[verifier::external_type_specification]
#[verifier::external_body]
#[verifier::reject_recursive_types(K)]
#[verifier::reject_recursive_types(V)]
pub struct ExSizedCache<K, V>(SizedCache<K, V>);

/// The contents of a store: (key, response) pairs, most recently used first.
pub type Entries = Seq<(Seq<char>, ResponseView)>;

/// What a `SizedCache` holds, in its recency order, most recent first.
pub uninterp spec fn sized_entries(c: SizedCache<String, Response>) -> Entries;

/// The number of entries a `SizedCache` was created to hold.
pub uninterp spec fn sized_capacity(c: SizedCache<String, Response>) -> nat;

/// The keys of the entries, in order.
pub open spec fn keys_of(s: Entries) -> Seq<Seq<char>> {
    s.map_values(|e: (Seq<char>, ResponseView)| e.0)
}

/// A state the store can be in: keys are unique and there are no more
/// entries than the (positive) capacity.
pub open spec fn bounded(s: Entries, capacity: nat) -> bool {
    &&& keys_of(s).no_duplicates()
    &&& s.len() <= capacity
    &&& capacity > 0
}

/// Where `key` stands in the recency order; meaningful when it is present.
pub open spec fn position(s: Entries, key: Seq<char>) -> int {
    keys_of(s).index_of(key)
}

/// The response stored under `key`, if any.
pub open spec fn lookup(s: Entries, key: Seq<char>) -> Option<ResponseView> {
    if keys_of(s).contains(key) {
        Some(s[position(s, key)].1)
    } else {
        None
    }
}

/// The entries without the one under `key`.
pub open spec fn remove_key(s: Entries, key: Seq<char>) -> Entries {
    if keys_of(s).contains(key) {
        s.remove(position(s, key))
    } else {
        s
    }
}

/// The entries after `key` is read: a present entry moves to the front.
pub open spec fn touch(s: Entries, key: Seq<char>) -> Entries {
    if keys_of(s).contains(key) {
        seq![s[position(s, key)]] + remove_key(s, key)
    } else {
        s
    }
}

/// The entries after a key that is not present is added at the front: past
/// the capacity, the least recently used entry leaves.
pub open spec fn push_front(s: Entries, key: Seq<char>, value: ResponseView, capacity: nat) -> Entries {
    let t = seq![(key, value)] + s;
    if t.len() > capacity {
        t.drop_last()
    } else {
        t
    }
}

/// The entries after `value` is written under `key`: it stands at the front,
/// replacing any earlier entry under that key.
pub open spec fn put(s: Entries, key: Seq<char>, value: ResponseView, capacity: nat) -> Entries {
    push_front(remove_key(s, key), key, value, capacity)
}

/// Relies on `SizedCache::with_size`: an empty cache that holds at most
/// `size` entries. It panics when `size` is zero.
#[verifier::external_body]
fn sized_new(size: usize) -> (r: SizedCache<String, Response>)
    requires
        size > 0,
    ensures
        sized_entries(r) == Seq::<(Seq<char>, ResponseView)>::empty(),
        sized_capacity(r) == size,
{
    SizedCache::with_size(size)
}

/// Relies on `Cached::cache_get` of `SizedCache`: a present key's entry moves
/// to the front of the recency order and is handed back (here as a copy);
/// an absent key changes nothing.
#[verifier::external_body]
fn sized_get(c: &mut SizedCache<String, Response>, key: &str) -> (r: Option<Response>)
    requires
        keys_of(sized_entries(*old(c))).no_duplicates(),
    ensures
        sized_capacity(*final(c)) == sized_capacity(*old(c)),
        sized_entries(*final(c)) == touch(sized_entries(*old(c)), key@),
        match r {
            Some(e) => lookup(sized_entries(*old(c)), key@) == Some(e@),
            None => lookup(sized_entries(*old(c)), key@) is None,
        },
    no_unwind
{
    c.cache_get(key).cloned()
}

/// Relies on `Cached::cache_remove` of `SizedCache`: the entry under `key`,
/// if any, leaves; the others keep their order.
#[verifier::external_body]
fn sized_remove(c: &mut SizedCache<String, Response>, key: &str)
    requires
        keys_of(sized_entries(*old(c))).no_duplicates(),
    ensures
        sized_capacity(*final(c)) == sized_capacity(*old(c)),
        sized_entries(*final(c)) == remove_key(sized_entries(*old(c)), key@),
    no_unwind
{
    c.cache_remove(key);
}

/// Relies on `Cached::cache_set` of `SizedCache` for a key that is not
/// present: the entry goes to the front, and when the cache then holds more
/// than its capacity the entry at the back is evicted.
#[verifier::external_body]
fn sized_insert(c: &mut SizedCache<String, Response>, key: String, value: Response)
    requires
        !keys_of(sized_entries(*old(c))).contains(key@),
        sized_entries(*old(c)).len() <= sized_capacity(*old(c)),
        sized_capacity(*old(c)) > 0,
    ensures
        sized_capacity(*final(c)) == sized_capacity(*old(c)),
        sized_entries(*final(c)) == push_front(
            sized_entries(*old(c)),
            key@,
            value@,
            sized_capacity(*old(c)),
        ),
    no_unwind
{
    c.cache_set(key, value);
}

/// Relies on `Cached::cache_size` of `SizedCache`: the number of entries.
#[verifier::external_body]
fn sized_len(c: &SizedCache<String, Response>) -> (r: usize)
    ensures
        r == sized_entries(*c).len(),
{
    c.cache_size()
}

/// Facts about a present key: where it stands, and that it stands nowhere else.
pub proof fn lemma_position(s: Entries, key: Seq<char>)
    requires
        keys_of(s).contains(key),
    ensures
        0 <= position(s, key) < s.len(),
        s[position(s, key)].0 == key,
        keys_of(s).no_duplicates() ==> forall|i: int| 0 <= i < s.len() && #[trigger] s[i].0 == key ==> i == position(s, key),
{
    let p = position(s, key);
    assert(keys_of(s)[p] == key);
    if keys_of(s).no_duplicates() {
        assert forall|i: int| 0 <= i < s.len() && #[trigger] s[i].0 == key implies i == p by {
            assert(keys_of(s)[i] == key);
        }
    }
}

/// Taking an entry out keeps the other keys, in order.
pub proof fn lemma_keys_remove(s: Entries, i: int)
    requires
        0 <= i < s.len(),
    ensures
        keys_of(s.remove(i)) == keys_of(s).remove(i),
{
    assert(keys_of(s.remove(i)) =~= keys_of(s).remove(i));
}

/// Removing `key` leaves a bounded state without `key`, one entry shorter when it was present.
pub proof fn lemma_remove_key(s: Entries, key: Seq<char>, capacity: nat)
    requires
        bounded(s, capacity),
    ensures
        bounded(remove_key(s, key), capacity),
        !keys_of(remove_key(s, key)).contains(key),
        remove_key(s, key).len() == if keys_of(s).contains(key) { s.len() - 1 } else { s.len() as int },
        forall|k: Seq<char>| k != key ==> (keys_of(s).contains(k) <==> keys_of(remove_key(s, key)).contains(k)),
{
    if keys_of(s).contains(key) {
        lemma_position(s, key);
        let p = position(s, key);
        lemma_keys_remove(s, p);
        let r = s.remove(p);
        assert(keys_of(r).no_duplicates());
        assert forall|k: Seq<char>| k != key implies (keys_of(s).contains(k) <==> keys_of(r).contains(k)) by {
            if keys_of(s).contains(k) {
                let j = keys_of(s).index_of(k);
                if j < p {
                    assert(keys_of(r)[j] == k);
                } else {
                    assert(keys_of(r)[j - 1] == k);
                }
            }
            if keys_of(r).contains(k) {
                let j = keys_of(r).index_of(k);
                if j < p {
                    assert(keys_of(s)[j] == k);
                } else {
                    assert(keys_of(s)[j + 1] == k);
                }
            }
        }
        if keys_of(r).contains(key) {
            let j = keys_of(r).index_of(key);
            if j < p {
                assert(keys_of(s)[j] == key);
            } else {
                assert(keys_of(s)[j + 1] == key);
            }
        }
    }
}

/// Adding an absent key keeps the store bounded.
pub proof fn lemma_push_front(s: Entries, key: Seq<char>, value: ResponseView, capacity: nat)
    requires
        bounded(s, capacity),
        !keys_of(s).contains(key),
    ensures
        bounded(push_front(s, key, value, capacity), capacity),
        push_front(s, key, value, capacity)[0] == (key, value),
{
    let t = seq![(key, value)] + s;
    assert(keys_of(t) =~= seq![key] + keys_of(s));
    assert(keys_of(t).no_duplicates()) by {
        assert forall|i: int, j: int| 0 <= i < j < keys_of(t).len() implies keys_of(t)[i] != keys_of(t)[j] by {
            if i == 0 {
                assert(keys_of(s)[j - 1] == keys_of(t)[j]);
            }
        }
    }
    if t.len() > capacity {
        assert(keys_of(t.drop_last()) =~= keys_of(t).drop_last());
    }
}

/// A store of responses that holds at most a fixed number of entries and
/// evicts the least recently used one when a new key would exceed it.
pub struct ResponseCache {
    store: SizedCache<String, Response>,
}

impl View for ResponseCache {
    type V = Entries;

    closed spec fn view(&self) -> Entries {
        sized_entries(self.store)
    }
}

impl ResponseCache {
    /// The number of entries the store holds at most.
    pub closed spec fn capacity(&self) -> nat {
        sized_capacity(self.store)
    }

    #[verifier::type_invariant]
    spec fn well_formed(self) -> bool {
        bounded(sized_entries(self.store), sized_capacity(self.store))
    }

    /// An empty store that holds at most `capacity` entries.
    pub fn new(capacity: usize) -> (r: Self)
        requires
            capacity > 0,
        ensures
            r@ == Seq::<(Seq<char>, ResponseView)>::empty(),
            r.capacity() == capacity,
            bounded(r@, r.capacity()),
    {
        let store = sized_new(capacity);
        assert(keys_of(sized_entries(store)) =~= Seq::<Seq<char>>::empty());
        ResponseCache { store }
    }

    /// A copy of the response stored under `key`, if any; a found entry
    /// becomes the most recently used.
    pub fn get(&mut self, key: &str) -> (r: Option<Response>)
        ensures
            final(self).capacity() == old(self).capacity(),
            final(self)@ == touch(old(self)@, key@),
            bounded(final(self)@, final(self).capacity()),
            match r {
                Some(e) => lookup(old(self)@, key@) == Some(e@),
                None => lookup(old(self)@, key@) is None,
            },
    {
        proof {
            use_type_invariant(&*self);
            lemma_touch(self@, key@, self.capacity());
        }
        sized_get(&mut self.store, key)
    }

    /// Stores `entry` under `key` as the most recently used entry, replacing
    /// any earlier one; a new key in a full store evicts the least recently
    /// used entry.
    pub fn set(&mut self, key: String, entry: Response)
        ensures
            final(self).capacity() == old(self).capacity(),
            final(self)@ == put(old(self)@, key@, entry@, old(self).capacity()),
            bounded(final(self)@, final(self).capacity()),
    {
        proof {
            use_type_invariant(&*self);
            lemma_remove_key(self@, key@, self.capacity());
            lemma_push_front(remove_key(self@, key@), key@, entry@, self.capacity());
        }
        sized_remove(&mut self.store, key.as_str());
        sized_insert(&mut self.store, key, entry);
    }

    /// The number of entries held.
    pub fn size(&self) -> (r: usize)
        ensures
            r == self@.len(),
            r <= self.capacity(),
    {
        proof {
            use_type_invariant(self);
        }
        sized_len(&self.store)
    }
}

/// Reading a key keeps the store bounded and its set of keys unchanged.
pub proof fn lemma_touch(s: Entries, key: Seq<char>, capacity: nat)
    requires
        bounded(s, capacity),
    ensures
        bounded(touch(s, key), capacity),
        touch(s, key).len() == s.len(),
{
    if keys_of(s).contains(key) {
        lemma_position(s, key);
        lemma_remove_key(s, key, capacity);
        let e = s[position(s, key)];
        let r = remove_key(s, key);
        lemma_push_front(r, key, e.1, capacity);
        assert(seq![e] + r =~= seq![(key, e.1)] + r);
    }
}

/// The entries after a series of writes, applied in order.
pub open spec fn put_all(s: Entries, writes: Seq<(Seq<char>, ResponseView)>, capacity: nat) -> Entries
    decreases writes.len(),
{
    if writes.len() == 0 {
        s
    } else {
        put_all(put(s, writes[0].0, writes[0].1, capacity), writes.drop_first(), capacity)
    }
}

/// A write keeps the store bounded: keys stay unique and the number of
/// entries never exceeds the capacity.
pub proof fn lemma_put_bounded(s: Entries, key: Seq<char>, value: ResponseView, capacity: nat)
    requires
        bounded(s, capacity),
    ensures
        bounded(put(s, key, value, capacity), capacity),
{
    lemma_remove_key(s, key, capacity);
    lemma_push_front(remove_key(s, key), key, value, capacity);
}

/// After any series of writes to a bounded store, it is still bounded: its
/// size never exceeds its capacity.
pub proof fn lemma_writes_stay_bounded(s: Entries, writes: Seq<(Seq<char>, ResponseView)>, capacity: nat)
    requires
        bounded(s, capacity),
    ensures
        bounded(put_all(s, writes, capacity), capacity),
        put_all(s, writes, capacity).len() <= capacity,
    decreases writes.len(),
{
    if writes.len() > 0 {
        lemma_put_bounded(s, writes[0].0, writes[0].1, capacity);
        lemma_writes_stay_bounded(put(s, writes[0].0, writes[0].1, capacity), writes.drop_first(), capacity);
    }
}

/// Writing a new key into a full store evicts exactly one entry, the least
/// recently used (the last in the recency order): the new entry stands in
/// front of all the others, which keep their order.
pub proof fn lemma_full_store_evicts_least_recent(
    s: Entries,
    key: Seq<char>,
    value: ResponseView,
    capacity: nat,
)
    requires
        bounded(s, capacity),
        s.len() == capacity,
        !keys_of(s).contains(key),
    ensures
        put(s, key, value, capacity) == seq![(key, value)] + s.drop_last(),
        put(s, key, value, capacity).len() == capacity,
        lookup(put(s, key, value, capacity), s.last().0) is None,
        forall|i: int| 0 <= i < s.len() - 1 ==> lookup(put(s, key, value, capacity), #[trigger] s[i].0) == Some(s[i].1),
{
    let t = put(s, key, value, capacity);
    assert(remove_key(s, key) == s);
    assert(t =~= seq![(key, value)] + s.drop_last());
    lemma_put_bounded(s, key, value, capacity);
    let last = s.last();
    if keys_of(t).contains(last.0) {
        lemma_position(t, last.0);
        let p = position(t, last.0);
        if p == 0 {
            assert(keys_of(s)[s.len() - 1] == key);
        } else {
            assert(keys_of(s)[p - 1] == keys_of(s)[s.len() - 1]);
        }
    }
    assert forall|i: int| 0 <= i < s.len() - 1 implies lookup(t, #[trigger] s[i].0) == Some(s[i].1) by {
        assert(t[i + 1] == s[i]);
        assert(keys_of(t)[i + 1] == s[i].0);
        lemma_position(t, s[i].0);
    }
}

/// What was just written under a key is what a lookup of that key finds.
pub proof fn lemma_lookup_after_put(s: Entries, key: Seq<char>, value: ResponseView, capacity: nat)
    requires
        bounded(s, capacity),
    ensures
        lookup(put(s, key, value, capacity), key) == Some(value),
{
    lemma_remove_key(s, key, capacity);
    lemma_push_front(remove_key(s, key), key, value, capacity);
    let t = put(s, key, value, capacity);
    assert(keys_of(t)[0] == key);
    lemma_position(t, key);
}

} // verus!
