use std::hash::{DefaultHasher, Hash, Hasher};

use vstd::prelude::*;

verus! {

/// Number of slots a map made by `new` is asked for.
pub const DEFAULT_CAPACITY: usize = 16;

/// Highest probe attempt; a lookup that meets an occupied foreign slot at every attempt
/// up to this one fails.
pub const MAX_ATTEMPTS: usize = 1024;

/// What `std::hash::DefaultHasher::new()` gives for a string key: it hashes the key's
/// UTF-8 bytes with SipHash under fixed zero keys, so the value depends on the key alone.
pub uninterp spec fn default_hash(key: Seq<char>) -> u64;

/// Hashes `key` with a fresh `std::hash::DefaultHasher`: the one value that std's
/// `DefaultHasher::new`, `<String as Hash>::hash` and `Hasher::finish` compute together.
/// The result is `default_hash` of the key's characters (its value is not stated).
#[verifier::external_body]
fn hash_key(key: &String) -> (h: u64)
    ensures
        h == default_hash(key@),
{
    let mut state = DefaultHasher::new();
    key.hash(&mut state);
    state.finish()
}

/// A slot as the contracts see it: empty, or a key's characters and its value.
pub type Slot<V> = Option<(Seq<char>, V)>;

pub open spec fn slot_view<V>(e: Option<(String, V)>) -> Slot<V> {
    match e {
        Some((k, v)) => Some((k@, v)),
        None => None,
    }
}

/// Number of occupied slots.
pub open spec fn occupied<V>(s: Seq<Slot<V>>) -> nat
    decreases s.len(),
{
    if s.len() == 0 {
        0
    } else {
        occupied(s.drop_last()) + if s.last() is Some {
            1nat
        } else {
            0nat
        }
    }
}

/// The slot where the key's probe sequence starts in a table of `cap` slots.
pub open spec fn start_index(key: Seq<char>, cap: nat) -> int {
    ((default_hash(key) as usize) % (cap as usize)) as int
}

/// The slot visited at probe attempt `t` (quadratic probing from `start`).
pub open spec fn probe_pos(start: int, t: nat, cap: nat) -> int {
    if t == 0 {
        start
    } else {
        (start + t * t) % (cap as int)
    }
}

/// A probe for `key` stops at an empty slot or at a slot holding `key`.
pub open spec fn stops_at<V>(slot: Slot<V>, key: Seq<char>) -> bool {
    match slot {
        None => true,
        Some((k, _)) => k == key,
    }
}

/// The first slot, from attempt `t` on, where the probe for `key` stops; `None` when no
/// attempt up to `MAX_ATTEMPTS` stops.
pub open spec fn probe_from<V>(s: Seq<Slot<V>>, key: Seq<char>, start: int, t: nat) -> Option<
    int,
>
    decreases 1025 - t,
{
    if t > 1024 {
        None
    } else if stops_at(s[probe_pos(start, t, s.len())], key) {
        Some(probe_pos(start, t, s.len()))
    } else {
        probe_from(s, key, start, t + 1)
    }
}

/// The slot where a lookup of `key` stops.
pub open spec fn find_spec<V>(s: Seq<Slot<V>>, key: Seq<char>) -> Option<int> {
    probe_from(s, key, start_index(key, s.len()), 0)
}

/// The value a lookup of `key` finds.
pub open spec fn lookup_spec<V>(s: Seq<Slot<V>>, key: Seq<char>) -> Option<V> {
    match find_spec(s, key) {
        Some(i) => match s[i] {
            Some((_, v)) => Some(v),
            None => None,
        },
        None => None,
    }
}

/// The table after an entry was stored in an empty slot: when the occupied slots times
/// 1.3 reach the slot count, empty slots are appended up to that number.
pub open spec fn grown<V>(s: Seq<Slot<V>>) -> Seq<Slot<V>> {
    let target = occupied(s) * 13 / 10;
    if target >= s.len() {
        s + Seq::new((target - s.len()) as nat, |j: int| None)
    } else {
        s
    }
}

/// The table after `insert(key, value)`.
pub open spec fn insert_spec<V>(s: Seq<Slot<V>>, key: Seq<char>, value: V) -> Seq<Slot<V>> {
    let i = find_spec(s, key).unwrap();
    let stored = s.update(i, Some((key, value)));
    if s[i] is Some {
        stored
    } else {
        grown(stored)
    }
}

/// The table after `remove(key)`.
pub open spec fn remove_spec<V>(s: Seq<Slot<V>>, key: Seq<char>) -> Seq<Slot<V>> {
    s.update(find_spec(s, key).unwrap(), None)
}

proof fn lemma_occupied_update<V>(s: Seq<Slot<V>>, i: int, e: Slot<V>)
    requires
        0 <= i < s.len(),
    ensures
        occupied(s.update(i, e)) + (if s[i] is Some {
            1int
        } else {
            0int
        }) == occupied(s) + (if e is Some {
            1int
        } else {
            0int
        }),
    decreases s.len(),
{
    if i == s.len() - 1 {
        assert(s.update(i, e).drop_last() =~= s.drop_last());
    } else {
        lemma_occupied_update(s.drop_last(), i, e);
        assert(s.update(i, e).drop_last() =~= s.drop_last().update(i, e));
    }
}

proof fn lemma_occupied_bound<V>(s: Seq<Slot<V>>)
    ensures
        occupied(s) <= s.len(),
    decreases s.len(),
{
    if s.len() > 0 {
        lemma_occupied_bound(s.drop_last());
    }
}

proof fn lemma_occupied_push_none<V>(s: Seq<Slot<V>>)
    ensures
        occupied(s.push(None)) == occupied(s),
{
    assert(s.push(None).drop_last() =~= s);
}

/// Once an attempt stops, the probe result is the first stopping slot from there.
proof fn lemma_probe_within<V>(s: Seq<Slot<V>>, key: Seq<char>, start: int, t: nat)
    requires
        probe_from(s, key, start, t) is Some,
        s.len() > 0,
        0 <= start < s.len(),
    ensures
        0 <= probe_from(s, key, start, t).unwrap() < s.len(),
        stops_at(s[probe_from(s, key, start, t).unwrap()], key),
    decreases 1025 - t,
{
    if t <= 1024 && !stops_at(s[probe_pos(start, t, s.len())], key) {
        lemma_probe_within(s, key, start, t + 1);
    }
}

/// Changing only the slot where the probe stops, to another slot that stops the probe,
/// keeps the probe's result.
proof fn lemma_probe_stable<V>(
    s: Seq<Slot<V>>,
    key: Seq<char>,
    start: int,
    t: nat,
    e: Slot<V>,
    extra: Seq<Slot<V>>,
)
    requires
        probe_from(s, key, start, t) is Some,
        stops_at(e, key),
        s.len() > 0,
        0 <= start < s.len(),
    ensures
        probe_from(s.update(probe_from(s, key, start, t).unwrap(), e), key, start, t)
            == probe_from(s, key, start, t),
    decreases 1025 - t,
{
    let i = probe_from(s, key, start, t).unwrap();
    let s2 = s.update(i, e);
    lemma_probe_within(s, key, start, t);
    if t <= 1024 {
        let p = probe_pos(start, t, s.len());
        assert(0 <= p < s.len()) by {
            if t > 0 {
                assert((start + t * t) % (s.len() as int) < s.len()) by (nonlinear_arith)
                    requires
                        s.len() > 0,
                ;
                assert(0 <= (start + t * t) % (s.len() as int)) by (nonlinear_arith)
                    requires
                        s.len() > 0,
                ;
            }
        }
        if !stops_at(s[p], key) {
            assert(p != i);
            lemma_probe_stable(s, key, start, t + 1, e, extra);
        }
    }
}

/// The start slot lies inside the table.
proof fn lemma_start_in_range(key: Seq<char>, cap: nat)
    requires
        0 < cap <= usize::MAX,
    ensures
        0 <= start_index(key, cap) < cap,
{
}

/// Lookup after insert: when `insert(key, value)` succeeds and does not grow the table,
/// a following lookup of `key` finds `value`.
pub proof fn lemma_get_after_insert<V>(s: Seq<Slot<V>>, key: Seq<char>, value: V)
    requires
        0 < s.len() <= usize::MAX,
        find_spec(s, key) is Some,
        insert_spec(s, key, value).len() == s.len(),
    ensures
        lookup_spec(insert_spec(s, key, value), key) == Some(value),
{
    let start = start_index(key, s.len());
    lemma_start_in_range(key, s.len());
    let i = find_spec(s, key).unwrap();
    lemma_probe_within(s, key, start, 0);
    let stored = s.update(i, Some((key, value)));
    lemma_probe_stable(s, key, start, 0, Some((key, value)), s);
    if s[i] is None {
        let target = occupied(stored) * 13 / 10;
        if target >= stored.len() {
            assert(grown(stored) =~= stored + Seq::new((target - stored.len()) as nat, |j: int| None));
        }
        assert(grown(stored) =~= stored);
    }
    assert(insert_spec(s, key, value) =~= stored);
}

/// Lookup after remove: after `remove(key)` succeeds, a lookup of `key` finds nothing.
pub proof fn lemma_get_after_remove<V>(s: Seq<Slot<V>>, key: Seq<char>)
    requires
        0 < s.len() <= usize::MAX,
        find_spec(s, key) is Some,
    ensures
        lookup_spec(remove_spec(s, key), key) is None,
{
    let start = start_index(key, s.len());
    lemma_start_in_range(key, s.len());
    lemma_probe_within(s, key, start, 0);
    lemma_probe_stable(s, key, start, 0, None, s);
}

/// Every probe position lies in the table.
proof fn lemma_probe_pos_in_range(start: int, t: nat, cap: nat)
    requires
        0 <= start < cap,
    ensures
        0 <= probe_pos(start, t, cap) < cap,
{
    if t > 0 {
        assert((start + t * t) % (cap as int) < cap) by (nonlinear_arith)
            requires
                cap > 0,
        ;
        assert(0 <= (start + t * t) % (cap as int)) by (nonlinear_arith)
            requires
                cap > 0,
        ;
    }
}

/// Storing, at a slot where the probe does not stop, an entry that does not stop it
/// either keeps the probe's result.
proof fn lemma_probe_keep<V>(s: Seq<Slot<V>>, key: Seq<char>, start: int, t: nat, i: int, e: Slot<V>)
    requires
        s.len() > 0,
        0 <= start < s.len(),
        0 <= i < s.len(),
        probe_from(s, key, start, t) != Some(i),
        !stops_at(e, key),
    ensures
        probe_from(s.update(i, e), key, start, t) == probe_from(s, key, start, t),
    decreases 1025 - t,
{
    if t <= 1024 {
        let p = probe_pos(start, t, s.len());
        lemma_probe_pos_in_range(start, t, s.len());
        assert(s.update(i, e).len() == s.len());
        if !stops_at(s[p], key) {
            lemma_probe_keep(s, key, start, t + 1, i, e);
        }
    }
}

/// Whether the probe for `key`, from attempt `t` on, goes over slot `i` without stopping
/// there before it stops.
pub open spec fn probe_passes<V>(s: Seq<Slot<V>>, key: Seq<char>, start: int, t: nat, i: int) -> bool
    decreases 1025 - t,
{
    if t > 1024 {
        false
    } else {
        let p = probe_pos(start, t, s.len());
        if stops_at(s[p], key) {
            false
        } else if p == i {
            true
        } else {
            probe_passes(s, key, start, t + 1, i)
        }
    }
}

/// Emptying a slot that does not stop the probe makes the probe stop there where it went
/// over it, and keeps its result otherwise.
proof fn lemma_probe_clear<V>(s: Seq<Slot<V>>, key: Seq<char>, start: int, t: nat, i: int)
    requires
        s.len() > 0,
        0 <= start < s.len(),
        0 <= i < s.len(),
        !stops_at(s[i], key),
    ensures
        probe_from(s.update(i, None), key, start, t) == if probe_passes(s, key, start, t, i) {
            Some(i)
        } else {
            probe_from(s, key, start, t)
        },
    decreases 1025 - t,
{
    if t <= 1024 {
        let p = probe_pos(start, t, s.len());
        lemma_probe_pos_in_range(start, t, s.len());
        assert(s.update(i, None).len() == s.len());
        if !stops_at(s[p], key) && p != i {
            lemma_probe_clear(s, key, start, t + 1, i);
        }
    }
}

/// Lookup of another key after insert: when `insert(key, value)` does not grow the table,
/// a key found before is found with the same value, and so is the result for every other
/// key whose probe did not stop at the slot that `key` was stored in.
pub proof fn lemma_insert_other_key<V>(s: Seq<Slot<V>>, key: Seq<char>, value: V, other: Seq<char>)
    requires
        0 < s.len() <= usize::MAX,
        find_spec(s, key) is Some,
        insert_spec(s, key, value).len() == s.len(),
        other != key,
    ensures
        lookup_spec(s, other) is Some ==> find_spec(s, other) != find_spec(s, key),
        find_spec(s, other) != find_spec(s, key) ==> lookup_spec(insert_spec(s, key, value), other)
            == lookup_spec(s, other),
{
    let n = s.len();
    let i = find_spec(s, key).unwrap();
    lemma_start_in_range(key, n);
    lemma_start_in_range(other, n);
    lemma_probe_within(s, key, start_index(key, n), 0);
    let stored = s.update(i, Some((key, value)));
    if s[i] is None {
        let target = occupied(stored) * 13 / 10;
        if target >= stored.len() {
            assert(grown(stored) =~= stored + Seq::new(
                (target - stored.len()) as nat,
                |j: int| None,
            ));
        }
        assert(grown(stored) =~= stored);
    }
    assert(insert_spec(s, key, value) =~= stored);
    if find_spec(s, other) is Some {
        lemma_probe_within(s, other, start_index(other, n), 0);
    }
    if find_spec(s, other) != find_spec(s, key) {
        lemma_probe_keep(s, other, start_index(other, n), 0, i, Some((key, value)));
    }
}

/// Lookup of another key after remove: the probe of another key stops at the emptied
/// slot where it went over it before, and then finds nothing; otherwise the lookup is
/// unchanged.
pub proof fn lemma_remove_other_key<V>(s: Seq<Slot<V>>, key: Seq<char>, other: Seq<char>)
    requires
        0 < s.len() <= usize::MAX,
        find_spec(s, key) is Some,
        other != key,
    ensures
        lookup_spec(remove_spec(s, key), other) == if probe_passes(
            s,
            other,
            start_index(other, s.len()),
            0,
            find_spec(s, key).unwrap(),
        ) {
            None
        } else {
            lookup_spec(s, other)
        },
{
    let n = s.len();
    let i = find_spec(s, key).unwrap();
    let start = start_index(other, n);
    lemma_start_in_range(key, n);
    lemma_start_in_range(other, n);
    lemma_probe_within(s, key, start_index(key, n), 0);
    if find_spec(s, other) is Some {
        lemma_probe_within(s, other, start, 0);
    }
    if s[i] is None {
        assert(s.update(i, None) =~= s);
        lemma_passes_stopping(s, other, start, 0, i);
    } else {
        lemma_probe_clear(s, other, start, 0, i);
    }
}

/// A probe never goes over a slot that stops it.
proof fn lemma_passes_stopping<V>(s: Seq<Slot<V>>, key: Seq<char>, start: int, t: nat, i: int)
    requires
        0 <= i < s.len(),
        stops_at(s[i], key),
    ensures
        !probe_passes(s, key, start, t, i),
    decreases 1025 - t,
{
    if t <= 1024 {
        let p = probe_pos(start, t, s.len());
        if !stops_at(s[p], key) && p != i {
            lemma_passes_stopping(s, key, start, t + 1, i);
        }
    }
}

/// An open-addressing hash map with string keys and quadratic probing.
pub struct HashMap<V> {
    inner: Vec<Option<(String, V)>>,
    len: usize,
}

impl<V> HashMap<V> {
    /// The slots, in order.
    pub closed spec fn slots(&self) -> Seq<Slot<V>> {
        self.inner@.map_values(|e: Option<(String, V)>| slot_view(e))
    }

    /// The entry count matches the occupied slots, and a probe position (a slot index
    /// plus the square of an attempt number) fits in a `usize`.
    pub closed spec fn wf(&self) -> bool {
        &&& self.len == occupied(self.slots())
        &&& self.inner@.len() + 1048576 <= usize::MAX
    }

    pub open spec fn spec_len(&self) -> nat {
        occupied(self.slots())
    }

    proof fn lemma_view_len(&self)
        ensures
            self.slots().len() == self.inner@.len(),
    {
    }

    /// An empty map with 16 slots asked for, that is 20 slots.
    pub fn new() -> (r: Self)
        ensures
            r.wf(),
            r.slots() == Seq::new(20, |j: int| None::<(Seq<char>, V)>),
    {
        Self::with_capacity(DEFAULT_CAPACITY)
    }

    /// An empty map with `capacity * 13 / 10` empty slots.
    pub fn with_capacity(capacity: usize) -> (r: Self)
        requires
            capacity * 13 <= usize::MAX,
        ensures
            r.wf(),
            r.slots() == Seq::new((capacity * 13 / 10) as nat, |j: int| None::<(Seq<char>, V)>),
    {
        let capacity = (capacity * 13) / 10;
        let mut inner: Vec<Option<(String, V)>> = Vec::with_capacity(capacity);
        let mut n: usize = 0;
        while n < capacity
            invariant
                n <= capacity,
                capacity + 1048576 <= usize::MAX,
                inner@.len() == n,
                forall|j: int| 0 <= j < n ==> inner@[j] is None,
            decreases capacity - n,
        {
            inner.push(None);
            n = n + 1;
        }
        let r = Self { len: 0, inner };
        proof {
            assert(r.slots() =~= Seq::new(capacity as nat, |j: int| None::<(Seq<char>, V)>));
            lemma_occupied_none(r.slots());
        }
        r
    }

    /// The number of slots.
    pub fn capacity(&self) -> (r: usize)
        ensures
            r == self.slots().len(),
    {
        self.inner.len()
    }

    /// The number of entries.
    pub fn len(&self) -> (r: usize)
        requires
            self.wf(),
        ensures
            r == self.spec_len(),
    {
        self.len
    }

    pub fn is_empty(&self) -> (r: bool)
        requires
            self.wf(),
        ensures
            r == (self.spec_len() == 0),
    {
        self.len() == 0
    }

    /// Appends `additional` empty slots.
    pub fn reserve(&mut self, additional: usize)
        requires
            old(self).wf(),
            old(self).slots().len() + additional + 1048576 <= usize::MAX,
        ensures
            final(self).wf(),
            final(self).slots() == old(self).slots() + Seq::new(
                additional as nat,
                |j: int| None::<(Seq<char>, V)>,
            ),
    {
        self.inner.reserve(additional);
        let ghost s0 = self.slots();
        let mut n: usize = 0;
        while n < additional
            invariant
                n <= additional,
                self.inner@.len() == s0.len() + n,
                self.slots() =~= s0 + Seq::new(n as nat, |j: int| None::<(Seq<char>, V)>),
                self.len == occupied(self.slots()),
                s0.len() + additional + 1048576 <= usize::MAX,
            decreases additional - n,
        {
            let ghost before = self.slots();
            self.inner.push(None);
            proof {
                assert(self.slots() =~= before.push(None));
                lemma_occupied_push_none(before);
            }
            n = n + 1;
        }
    }

    /// The slot of `key`'s start, from its hash.
    fn hash_index(&self, key: &String) -> (r: usize)
        requires
            self.slots().len() > 0,
        ensures
            r == start_index(key@, self.slots().len()),
            r < self.slots().len(),
    {
        let h = hash_key(key);
        (h as usize) % self.inner.len()
    }

    /// Whether the probe for `key` moves past slot `index`.
    fn blocks(&self, index: usize, key: &String) -> (r: bool)
        requires
            index < self.slots().len(),
        ensures
            r == !stops_at(self.slots()[index as int], key@),
    {
        proof {
            assert(self.slots()[index as int] == slot_view(self.inner@[index as int]));
        }
        match &self.inner[index] {
            Some((found, _)) => !(*found == *key),
            None => false,
        }
    }

    /// The slot where the probe for `key` stops, or `None` when every attempt meets an
    /// occupied slot of another key.
    pub fn find(&self, key: &String) -> (r: Option<usize>)
        requires
            self.wf(),
        ensures
            self.slots().len() == 0 ==> r is None,
            self.slots().len() > 0 ==> match r {
                Some(i) => find_spec(self.slots(), key@) == Some(i as int),
                None => find_spec(self.slots(), key@) is None,
            },
            r is Some ==> r.unwrap() < self.slots().len(),
            r is Some ==> stops_at(self.slots()[r.unwrap() as int], key@),
    {
        let cap = self.inner.len();
        if cap == 0 {
            return None;
        }
        let initial_index = self.hash_index(key);
        let ghost s = self.slots();
        let ghost start = initial_index as int;
        let mut attempt: usize = 1;
        let mut index = initial_index;
        while self.blocks(index, key)
            invariant
                s == self.slots(),
                cap == s.len(),
                cap > 0,
                cap + 1048576 <= usize::MAX,
                0 <= start < cap,
                start == initial_index,
                start == start_index(key@, s.len()),
                1 <= attempt <= 1025,
                index < cap,
                index == probe_pos(start, (attempt - 1) as nat, s.len()),
                probe_from(s, key@, start, 0) == probe_from(s, key@, start, (attempt - 1) as nat),
            decreases 1025 - attempt,
        {
            if attempt > MAX_ATTEMPTS {
                return None;
            }
            proof {
                assert(attempt * attempt <= 1024 * 1024) by (nonlinear_arith)
                    requires
                        attempt <= 1024,
                ;
                assert(probe_from(s, key@, start, (attempt - 1) as nat) == probe_from(
                    s,
                    key@,
                    start,
                    attempt as nat,
                ));
            }
            index = (initial_index + (attempt * attempt)) % cap;
            attempt = attempt + 1;
        }
        proof {
            assert(probe_from(s, key@, start, (attempt - 1) as nat) == Some(index as int));
        }
        Some(index)
    }

    /// The value stored under `key`.
    pub fn get(&self, key: &String) -> (r: Option<&V>)
        requires
            self.wf(),
            self.slots().len() > 0,
            find_spec(self.slots(), key@) is Some,
        ensures
            lookup_spec(self.slots(), key@) == match r {
                Some(v) => Some(*v),
                None => None::<V>,
            },
    {
        let index = self.find(key).unwrap();
        proof {
            assert(self.slots()[index as int] == slot_view(self.inner@[index as int]));
        }
        match &self.inner[index] {
            Some((_, value)) => Some(value),
            None => None,
        }
    }

    /// A mutable reference to the value stored under `key`; what is written through it
    /// becomes the slot's value.
    pub fn get_mut(&mut self, key: &String) -> (r: Option<&mut V>)
        requires
            old(self).wf(),
            old(self).slots().len() > 0,
            find_spec(old(self).slots(), key@) is Some,
        ensures
            lookup_spec(old(self).slots(), key@) == match r {
                Some(v) => Some(*v),
                None => None::<V>,
            },
            r is None ==> *final(self) == *old(self),
            r is Some ==> final(self).wf() && final(self).slots() == old(self).slots().update(
                find_spec(old(self).slots(), key@).unwrap(),
                Some((key@, *final(r.unwrap()))),
            ),
    {
        let index = self.find(key).unwrap();
        proof {
            assert(self.slots()[index as int] == slot_view(self.inner@[index as int]));
        }
        if self.inner[index].is_none() {
            return None;
        }
        let ghost stored_key = self.inner@[index as int].unwrap().0;
        match &mut self.inner[index] {
            Some((_, value)) => {
                assert(after_borrow(self).inner@ == old(self).inner@.update(
                    index as int,
                    Some((stored_key, *final(value))),
                ));
                assert(after_borrow(self).slots() =~= old(self).slots().update(
                    index as int,
                    Some((key@, *final(value))),
                ));
                proof {
                    lemma_occupied_update(old(self).slots(), index as int, Some((key@, *final(value))));
                }
                Some(value)
            },
            None => None,
        }
    }

    /// Stores `value` under `key` and returns the value it replaced. When the key took an
    /// empty slot and the entries times 1.3 reach the slot count, the table is extended
    /// with empty slots up to that number (entries are not moved).
    pub fn insert(&mut self, key: String, value: V) -> (r: Option<V>)
        requires
            old(self).wf(),
            old(self).slots().len() > 0,
            find_spec(old(self).slots(), key@) is Some,
            old(self).slots()[find_spec(old(self).slots(), key@).unwrap()] is None ==> (old(
                self,
            ).spec_len() + 1) * 13 <= usize::MAX,
        ensures
            final(self).wf(),
            r == lookup_spec(old(self).slots(), key@),
            final(self).slots() == insert_spec(old(self).slots(), key@, value),
    {
        let index = self.find(&key).unwrap();
        let ghost s = self.slots();
        let ghost k = key@;
        let ghost old_entry = self.inner@[index as int];
        assert(s[index as int] == slot_view(old_entry));
        let mut entry: Option<(String, V)> = Some((key, value));
        std::mem::swap(&mut entry, &mut self.inner[index]);
        proof {
            assert(self.slots() =~= s.update(index as int, Some((k, value))));
            lemma_occupied_update(s, index as int, Some((k, value)));
            lemma_occupied_bound(self.slots());
        }
        match entry {
            Some((_, found)) => Some(found),
            None => {
                self.len = self.len + 1;
                let target = (self.len() * 13) / 10;
                proof {
                    assert(target + 1048576 <= usize::MAX) by (nonlinear_arith)
                        requires
                            target == (self.len * 13) / 10,
                            self.len * 13 <= usize::MAX,
                            usize::MAX >= 4294967295,
                    ;
                }
                if let Some(additional) = target.checked_sub(self.capacity()) {
                    self.reserve(additional);
                }
                proof {
                    assert(self.slots() =~= grown(s.update(index as int, Some((k, value)))));
                }
                None
            },
        }
    }

    /// Removes the entry where the probe for `key` stops and returns its value.
    pub fn remove(&mut self, key: &String) -> (r: Option<V>)
        requires
            old(self).wf(),
            old(self).slots().len() > 0,
            find_spec(old(self).slots(), key@) is Some,
        ensures
            final(self).wf(),
            r == lookup_spec(old(self).slots(), key@),
            final(self).slots() == remove_spec(old(self).slots(), key@),
    {
        let index = self.find(key).unwrap();
        let ghost s = self.slots();
        let ghost old_entry = self.inner@[index as int];
        assert(s[index as int] == slot_view(old_entry));
        let mut entry: Option<(String, V)> = None;
        std::mem::swap(&mut entry, &mut self.inner[index]);
        proof {
            assert(self.slots() =~= s.update(index as int, None));
            lemma_occupied_update(s, index as int, None);
        }
        match entry {
            Some((_, value)) => {
                self.len = self.len - 1;
                Some(value)
            },
            None => None,
        }
    }
}

impl<V> HashMap<V> {
    /// `get`, or `None` when the probe for `key` finds no stopping slot (where `get`
    /// cannot be called).
    pub fn try_get(&self, key: &String) -> (r: Option<Option<&V>>)
        requires
            self.wf(),
        ensures
            (self.slots().len() > 0 && find_spec(self.slots(), key@) is Some) <==> r is Some,
            r is Some ==> lookup_spec(self.slots(), key@) == match r.unwrap() {
                Some(v) => Some(*v),
                None => None::<V>,
            },
    {
        match self.find(key) {
            Some(_) => Some(self.get(key)),
            None => None,
        }
    }

    /// `get_mut`, or `None` (the map unchanged) when the probe for `key` finds no
    /// stopping slot.
    pub fn try_get_mut(&mut self, key: &String) -> (r: Option<Option<&mut V>>)
        requires
            old(self).wf(),
        ensures
            (old(self).slots().len() > 0 && find_spec(old(self).slots(), key@) is Some)
                <==> r is Some,
            r is None ==> *final(self) == *old(self),
    {
        match self.find(key) {
            Some(_) => Some(self.get_mut(key)),
            None => None,
        }
    }

    /// `insert`, or `None` (the map unchanged) when the probe for `key` finds no stopping
    /// slot.
    pub fn try_insert(&mut self, key: String, value: V) -> (r: Option<Option<V>>)
        requires
            old(self).wf(),
            old(self).slots().len() > 0 && find_spec(old(self).slots(), key@) is Some
                && old(self).slots()[find_spec(old(self).slots(), key@).unwrap()] is None ==> (old(
                self,
            ).spec_len() + 1) * 13 <= usize::MAX,
        ensures
            final(self).wf(),
            (old(self).slots().len() > 0 && find_spec(old(self).slots(), key@) is Some)
                <==> r is Some,
            r is None ==> *final(self) == *old(self),
            r is Some ==> r.unwrap() == lookup_spec(old(self).slots(), key@) && final(self).slots()
                == insert_spec(old(self).slots(), key@, value),
    {
        match self.find(&key) {
            Some(_) => Some(self.insert(key, value)),
            None => None,
        }
    }

    /// `remove`, or `None` (the map unchanged) when the probe for `key` finds no stopping
    /// slot.
    pub fn try_remove(&mut self, key: &String) -> (r: Option<Option<V>>)
        requires
            old(self).wf(),
        ensures
            final(self).wf(),
            (old(self).slots().len() > 0 && find_spec(old(self).slots(), key@) is Some)
                <==> r is Some,
            r is None ==> *final(self) == *old(self),
            r is Some ==> r.unwrap() == lookup_spec(old(self).slots(), key@) && final(self).slots()
                == remove_spec(old(self).slots(), key@),
    {
        match self.find(key) {
            Some(_) => Some(self.remove(key)),
            None => None,
        }
    }

    /// An iterator that starts at the first slot.
    pub fn iter(&self) -> (r: HashMapIterator<'_, V>)
        ensures
            r.cursor() == 0,
            r.map() == *self,
    {
        HashMapIterator { cursor: 0, inner: self }
    }
}

/// Where the iterator's scan ends when it starts at cursor `c`: the first occupied slot
/// at or after `c`, and the cursor it stops at. Past the last slot the cursor wraps for
/// the one slot it reads and the scan gives up.
pub open spec fn scan_from<V>(s: Seq<Slot<V>>, c: int) -> (Option<int>, int)
    decreases s.len() - c,
{
    if c >= s.len() {
        if s.len() > 0 && s[c % (s.len() as int)] is Some {
            (Some(c % (s.len() as int)), c)
        } else {
            (None, c)
        }
    } else if s[c] is Some {
        (Some(c), c)
    } else {
        scan_from(s, c + 1)
    }
}

/// Reads the entries of a map from a cursor; each call yields the first occupied slot at
/// or after the cursor and leaves the cursor there, so repeated calls yield that entry
/// again.
pub struct HashMapIterator<'a, V> {
    cursor: usize,
    inner: &'a HashMap<V>,
}

impl<'a, V> HashMapIterator<'a, V> {
    pub closed spec fn cursor(&self) -> int {
        self.cursor as int
    }

    pub closed spec fn map(&self) -> HashMap<V> {
        *self.inner
    }

    /// The entry at the first occupied slot from the cursor on; `None` for an empty map.
    pub fn next(&mut self) -> (r: Option<(&'a String, &'a V)>)
        requires
            old(self).map().wf(),
        ensures
            final(self).map() == old(self).map(),
            old(self).map().spec_len() == 0 ==> r is None && final(self).cursor() == old(
                self,
            ).cursor(),
            old(self).map().spec_len() > 0 ==> final(self).cursor() == scan_from(
                old(self).map().slots(),
                old(self).cursor(),
            ).1 && match (scan_from(old(self).map().slots(), old(self).cursor()).0, r) {
                (Some(i), Some((k, v))) => old(self).map().slots()[i] == Some((k@, *v)),
                (None, None) => true,
                _ => false,
            },
    {
        if self.inner.is_empty() {
            return None;
        }
        let cap = self.inner.capacity();
        proof {
            lemma_occupied_bound(self.inner.slots());
        }
        let ghost s = self.inner.slots();
        let ghost c0 = self.cursor as int;
        while self.inner.inner[self.cursor % cap].is_none()
            invariant
                s == self.inner.slots(),
                cap == s.len(),
                cap > 0,
                occupied(s) > 0,
                self.inner == old(self).inner,
                c0 == old(self).cursor as int,
                scan_from(s, c0) == scan_from(s, self.cursor as int),
                self.cursor as int >= c0,
                c0 < cap ==> self.cursor <= cap,
                c0 >= cap ==> self.cursor == c0,
            decreases cap - self.cursor,
        {
            proof {
                assert(s[(self.cursor % cap) as int] == slot_view(
                    self.inner.inner@[(self.cursor % cap) as int],
                ));
            }
            if self.cursor >= cap {
                proof {
                    assert((self.cursor % cap) as int == (self.cursor as int) % (s.len() as int));
                    assert(scan_from(s, self.cursor as int) == (None::<int>, self.cursor as int));
                }
                return None;
            }
            proof {
                vstd::arithmetic::div_mod::lemma_small_mod(self.cursor as nat, cap as nat);
            }
            self.cursor = self.cursor + 1;
        }
        proof {
            assert(s[(self.cursor % cap) as int] == slot_view(
                self.inner.inner@[(self.cursor % cap) as int],
            ));
        }
        proof {
            assert((self.cursor % cap) as int == (self.cursor as int) % (s.len() as int));
            if self.cursor < cap {
                vstd::arithmetic::div_mod::lemma_small_mod(self.cursor as nat, cap as nat);
            }
        }
        match &self.inner.inner[self.cursor % cap] {
            Some((k, v)) => Some((k, v)),
            None => None,
        }
    }
}

proof fn lemma_occupied_none<V>(s: Seq<Slot<V>>)
    requires
        forall|j: int| 0 <= j < s.len() ==> s[j] is None,
    ensures
        occupied(s) == 0,
    decreases s.len(),
{
    if s.len() > 0 {
        lemma_occupied_none(s.drop_last());
    }
}

} // verus!
