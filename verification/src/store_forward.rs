//! Store-and-forward buffering of bundles through communication
//! blackouts (eclipse, solar conjunction, dust storms): bundles are kept
//! in identifier order with an integrity digest, indexed by destination,
//! evicted by a chosen strategy when the buffer is full, and dropped when
//! they expire. Times are Unix milliseconds.

use vstd::prelude::*;
use crate::clock::{now_millis, in_clock_range, div_trunc, whole_seconds};
use crate::hashing::{sha3_256, hex_encode, spec_hex, spec_sha3_256};
use crate::priority_bundle::{BundleDestination, BundleId, BundlePriority, PriorityBundle};
use crate::text::{chars_of, str_eq};

verus! {

// ─── Identifier order ───

/// The order of `String`: lexicographic over the characters (UTF-8
/// preserves the order of code points).
pub open spec fn text_lt(a: Seq<char>, b: Seq<char>) -> bool
    decreases a.len(),
{
    if b.len() == 0 {
        false
    } else if a.len() == 0 {
        true
    } else if a[0] != b[0] {
        (a[0] as int) < (b[0] as int)
    } else {
        text_lt(a.drop_first(), b.drop_first())
    }
}

/// No text precedes itself.
pub proof fn lemma_text_lt_irreflexive(a: Seq<char>)
    ensures
        !text_lt(a, a),
    decreases a.len(),
{
    if a.len() > 0 {
        lemma_text_lt_irreflexive(a.drop_first());
    }
}

/// The order of texts is transitive.
pub proof fn lemma_text_lt_transitive(a: Seq<char>, b: Seq<char>, c: Seq<char>)
    requires
        text_lt(a, b),
        text_lt(b, c),
    ensures
        text_lt(a, c),
    decreases a.len(),
{
    if a.len() > 0 && b.len() > 0 && c.len() > 0 && a[0] == b[0] && b[0] == c[0] {
        lemma_text_lt_transitive(a.drop_first(), b.drop_first(), c.drop_first());
    }
}

/// Two different texts are ordered one way or the other.
pub proof fn lemma_text_lt_total(a: Seq<char>, b: Seq<char>)
    requires
        a != b,
    ensures
        text_lt(a, b) || text_lt(b, a),
    decreases a.len(),
{
    if a.len() == 0 {
        assert(b.len() > 0) by {
            if b.len() == 0 {
                assert(a =~= b);
            }
        }
    } else if b.len() > 0 && a[0] == b[0] {
        if a.drop_first() == b.drop_first() {
            assert(a =~= seq![a[0]] + a.drop_first());
            assert(b =~= seq![b[0]] + b.drop_first());
        }
        lemma_text_lt_total(a.drop_first(), b.drop_first());
    } else if b.len() > 0 {
        assert((a[0] as int) != (b[0] as int));
    }
}

/// Whether one string sorts before another.
pub fn text_less(a: &str, b: &str) -> (r: bool)
    ensures
        r == text_lt(a@, b@),
{
    let x = chars_of(a);
    let y = chars_of(b);
    let mut i: usize = 0;
    proof {
        assert(a@.skip(0) =~= a@);
        assert(b@.skip(0) =~= b@);
    }
    while i < x.len() && i < y.len()
        invariant
            x@ == a@,
            y@ == b@,
            i <= x@.len(),
            i <= y@.len(),
            text_lt(a@, b@) == text_lt(a@.skip(i as int), b@.skip(i as int)),
        decreases x@.len() - i,
    {
        if x[i] != y[i] {
            proof {
                assert(a@.skip(i as int)[0] == x@[i as int]);
                assert(b@.skip(i as int)[0] == y@[i as int]);
            }
            return x[i] < y[i];
        }
        proof {
            assert(a@.skip(i as int).drop_first() =~= a@.skip(i + 1));
            assert(b@.skip(i as int).drop_first() =~= b@.skip(i + 1));
        }
        i = i + 1;
    }
    i < y.len()
}

// ─── Stored bundles ───

/// A bundle held in the buffer.
#[derive(Debug)]
pub struct StoredBundle {
    pub bundle: PriorityBundle,
    pub stored_at: i64,
    pub access_count: u32,
    pub last_accessed: i64,
    pub retransmission_count: u32,
    /// Lower-case hex of the SHA3-256 of the payload, taken on storage.
    pub integrity_hash: String,
}

/// A summary of the buffer.
#[derive(Debug, Clone, Copy, PartialEq, Eq, Structural)]
pub struct StorageState {
    pub total_capacity_bytes: u64,
    pub used_bytes: u64,
    pub bundle_count: usize,
    /// Whole hours since the oldest storage (0 when empty or all newer).
    pub oldest_bundle_age_hours: i64,
    /// Whole seconds since the newest storage (0 when empty).
    pub newest_bundle_age_seconds: i64,
    pub eviction_count: u64,
    pub integrity_failures: u64,
}

/// Which bundles go first when the buffer is full.
#[derive(Debug, Clone, Copy, PartialEq, Eq, Structural)]
pub enum EvictionStrategy {
    /// Bundles of the two lowest priorities, in identifier order.
    LowestPriority,
    /// All bundles, in identifier order.
    OldestFirst,
    /// All bundles, least accessed first.
    LeastFrequentlyUsed,
    /// All bundles, least recently accessed first.
    LeastRecentlyUsed,
}

/// Errors of the DTN layer.
#[derive(Debug, PartialEq, Eq)]
pub enum DtnError {
    /// The buffer could not take a bundle.
    Storage(String),
}

/// The identifier of a stored bundle, as text.
pub open spec fn key_of(b: StoredBundle) -> Seq<char> {
    b.bundle.id.0@
}

/// Whether the digest recorded for a stored bundle matches its payload.
pub open spec fn digest_ok(b: StoredBundle) -> bool {
    b.integrity_hash@ == spec_hex(spec_sha3_256(b.bundle.payload@))
}

/// Stored bundles in strictly increasing identifier order.
pub open spec fn sorted_keys(s: Seq<StoredBundle>) -> bool {
    forall|i: int, j: int| 0 <= i < j < s.len() ==> text_lt(#[trigger] key_of(s[i]), #[trigger] key_of(s[j]))
}

/// The number of stored bundles whose identifier sorts before `id`
/// (where `id` goes in the order).
pub open spec fn lower_bound(s: Seq<StoredBundle>, id: Seq<char>) -> int
    decreases s.len(),
{
    if s.len() == 0 {
        0
    } else if text_lt(key_of(s[0]), id) {
        1 + lower_bound(s.drop_first(), id)
    } else {
        0
    }
}

/// Whether a bundle with identifier `id` is stored.
pub open spec fn holds(s: Seq<StoredBundle>, id: Seq<char>) -> bool {
    exists|k: int| 0 <= k < s.len() && key_of(#[trigger] s[k]) == id
}

/// `lower_bound` is the first place whose identifier does not sort
/// before `id`.
pub proof fn lemma_lower_bound_at(s: Seq<StoredBundle>, id: Seq<char>, p: int)
    requires
        0 <= p <= s.len(),
        forall|j: int| 0 <= j < p ==> text_lt(key_of(#[trigger] s[j]), id),
        p < s.len() ==> !text_lt(key_of(s[p]), id),
    ensures
        lower_bound(s, id) == p,
    decreases s.len(),
{
    if s.len() > 0 && p > 0 {
        assert(text_lt(key_of(s[0]), id));
        assert forall|j: int| 0 <= j < p - 1 implies text_lt(key_of(#[trigger] s.drop_first()[j]), id) by {
            assert(s.drop_first()[j] == s[j + 1]);
        }
        if p < s.len() {
            assert(s.drop_first()[p - 1] == s[p]);
        }
        lemma_lower_bound_at(s.drop_first(), id, p - 1);
    }
}

/// In a sorted sequence a bundle with identifier `id` can only stand at
/// `lower_bound`; everything before sorts below `id`, everything after
/// above it.
pub proof fn lemma_sorted_place(s: Seq<StoredBundle>, id: Seq<char>, p: int)
    requires
        sorted_keys(s),
        0 <= p <= s.len(),
        forall|j: int| 0 <= j < p ==> text_lt(key_of(#[trigger] s[j]), id),
        p < s.len() ==> !text_lt(key_of(s[p]), id),
    ensures
        holds(s, id) <==> (p < s.len() && key_of(s[p]) == id),
        forall|j: int| p < j < s.len() ==> text_lt(id, key_of(#[trigger] s[j])),
        p < s.len() && key_of(s[p]) != id ==> text_lt(id, key_of(s[p])),
{
    if p < s.len() && key_of(s[p]) != id {
        lemma_text_lt_total(key_of(s[p]), id);
    }
    assert forall|j: int| p < j < s.len() implies text_lt(id, key_of(#[trigger] s[j])) by {
        assert(text_lt(key_of(s[p]), key_of(s[j])));
        if key_of(s[p]) == id {
        } else {
            lemma_text_lt_total(key_of(s[p]), id);
            lemma_text_lt_transitive(id, key_of(s[p]), key_of(s[j]));
        }
    }
    if holds(s, id) {
        let k = choose|k: int| 0 <= k < s.len() && key_of(#[trigger] s[k]) == id;
        if k < p {
            lemma_text_lt_irreflexive(id);
        } else if k > p {
            lemma_text_lt_irreflexive(id);
        }
    }
}

// ─── Destination index ───

/// Whether two destinations are the same (same kind, same name).
pub open spec fn same_dest(a: BundleDestination, b: BundleDestination) -> bool {
    match (a, b) {
        (BundleDestination::EarthStation(x), BundleDestination::EarthStation(y)) => x@ == y@,
        (BundleDestination::Relay(x), BundleDestination::Relay(y)) => x@ == y@,
        _ => false,
    }
}

/// Whether two destinations are the same.
pub fn same_destination(a: &BundleDestination, b: &BundleDestination) -> (r: bool)
    ensures
        r == same_dest(*a, *b),
{
    match (a, b) {
        (BundleDestination::EarthStation(x), BundleDestination::EarthStation(y)) => str_eq(x.as_str(), y.as_str()),
        (BundleDestination::Relay(x), BundleDestination::Relay(y)) => str_eq(x.as_str(), y.as_str()),
        _ => false,
    }
}

/// The index entry of a destination (the first with that destination),
/// or the index length when there is none.
pub open spec fn entry_of(ix: Seq<(BundleDestination, Seq<BundleId>)>, d: BundleDestination) -> int
    decreases ix.len(),
{
    if ix.len() == 0 {
        0
    } else if same_dest(ix[0].0, d) {
        0
    } else {
        1 + entry_of(ix.drop_first(), d)
    }
}

/// The identifiers recorded for a destination, in storage order.
pub open spec fn ids_for(ix: Seq<(BundleDestination, Seq<BundleId>)>, d: BundleDestination) -> Seq<BundleId> {
    let e = entry_of(ix, d);
    if e < ix.len() {
        ix[e].1
    } else {
        Seq::empty()
    }
}

/// The identifiers other than `id`, in order.
pub open spec fn without_id(ids: Seq<BundleId>, id: Seq<char>) -> Seq<BundleId>
    decreases ids.len(),
{
    if ids.len() == 0 {
        Seq::empty()
    } else if ids.last().0@ == id {
        without_id(ids.drop_last(), id)
    } else {
        without_id(ids.drop_last(), id).push(ids.last())
    }
}

/// The index after recording `id` under destination `d`.
pub open spec fn index_add(ix: Seq<(BundleDestination, Seq<BundleId>)>, d: BundleDestination, id: BundleId) -> Seq<(BundleDestination, Seq<BundleId>)> {
    let e = entry_of(ix, d);
    if e < ix.len() {
        ix.update(e, (ix[e].0, ix[e].1.push(id)))
    } else {
        ix.push((d, seq![id]))
    }
}

/// The index after forgetting `id` under destination `d`.
pub open spec fn index_drop(ix: Seq<(BundleDestination, Seq<BundleId>)>, d: BundleDestination, id: Seq<char>) -> Seq<(BundleDestination, Seq<BundleId>)> {
    let e = entry_of(ix, d);
    if e < ix.len() {
        ix.update(e, (ix[e].0, without_id(ix[e].1, id)))
    } else {
        ix
    }
}

/// `entry_of` is the first entry with the destination.
pub proof fn lemma_entry_at(ix: Seq<(BundleDestination, Seq<BundleId>)>, d: BundleDestination, p: int)
    requires
        0 <= p <= ix.len(),
        forall|j: int| 0 <= j < p ==> !same_dest(#[trigger] ix[j].0, d),
        p < ix.len() ==> same_dest(ix[p].0, d),
    ensures
        entry_of(ix, d) == p,
    decreases ix.len(),
{
    if ix.len() > 0 && p > 0 {
        assert(!same_dest(ix[0].0, d));
        assert forall|j: int| 0 <= j < p - 1 implies !same_dest(#[trigger] ix.drop_first()[j].0, d) by {
            assert(ix.drop_first()[j] == ix[j + 1]);
        }
        if p < ix.len() {
            assert(ix.drop_first()[p - 1] == ix[p]);
        }
        lemma_entry_at(ix.drop_first(), d, p - 1);
    }
}

// ─── Buffer state, as a tuple: (bundles in identifier order, index,
// bytes used, evictions) ───

/// Removal of the bundle with identifier `id`, if stored: it leaves the
/// sequence and its destination's index entry, and its size is taken
/// from the bytes used (not below zero).
pub open spec fn remove_key(
    st: (Seq<StoredBundle>, Seq<(BundleDestination, Seq<BundleId>)>, int, int),
    id: Seq<char>,
) -> (Seq<StoredBundle>, Seq<(BundleDestination, Seq<BundleId>)>, int, int) {
    let p = lower_bound(st.0, id);
    if p < st.0.len() && key_of(st.0[p]) == id {
        let b = st.0[p];
        (
            st.0.remove(p),
            index_drop(st.1, b.bundle.destination, id),
            if st.2 >= b.bundle.payload_size { st.2 - b.bundle.payload_size } else { 0 },
            st.3,
        )
    } else {
        st
    }
}

// ─── Eviction ───

/// Identifiers of the bundles of the two lowest priorities, in order.
pub open spec fn low_priority_keys(s: Seq<StoredBundle>) -> Seq<Seq<char>>
    decreases s.len(),
{
    if s.len() == 0 {
        Seq::empty()
    } else if s.last().bundle.priority.level() <= 1 {
        low_priority_keys(s.drop_last()).push(key_of(s.last()))
    } else {
        low_priority_keys(s.drop_last())
    }
}

/// Identifiers of all the bundles, in order.
pub open spec fn all_keys(s: Seq<StoredBundle>) -> Seq<Seq<char>> {
    s.map_values(|b: StoredBundle| key_of(b))
}

/// What the usage strategies sort on: the access count, or the time of
/// the last access.
pub open spec fn usage_key(b: StoredBundle, by_count: bool) -> int {
    if by_count {
        b.access_count as int
    } else {
        b.last_accessed as int
    }
}

/// The first place in `r` whose usage key is at least `k`.
pub open spec fn first_not_below(r: Seq<StoredBundle>, k: int, by_count: bool) -> int
    decreases r.len(),
{
    if r.len() == 0 {
        0
    } else if usage_key(r[0], by_count) >= k {
        0
    } else {
        1 + first_not_below(r.drop_first(), k, by_count)
    }
}

/// The bundles stably sorted by usage key: equal keys keep their order.
pub open spec fn usage_order(s: Seq<StoredBundle>, by_count: bool) -> Seq<StoredBundle>
    decreases s.len(),
{
    if s.len() == 0 {
        Seq::empty()
    } else {
        let r = usage_order(s.drop_first(), by_count);
        r.insert(first_not_below(r, usage_key(s[0], by_count), by_count), s[0])
    }
}

/// The order in which a strategy offers bundles for eviction.
pub open spec fn victims(s: Seq<StoredBundle>, strategy: EvictionStrategy) -> Seq<Seq<char>> {
    match strategy {
        EvictionStrategy::LowestPriority => low_priority_keys(s),
        EvictionStrategy::OldestFirst => all_keys(s),
        EvictionStrategy::LeastFrequentlyUsed => all_keys(usage_order(s, true)),
        EvictionStrategy::LeastRecentlyUsed => all_keys(usage_order(s, false)),
    }
}

/// Eviction along the victims `v` until `to_free` bytes are free: each
/// victim still stored is removed and counted, and the free space is
/// measured again. `None` where the bytes used exceed the capacity after
/// a removal (measuring the free space would underflow) or the eviction
/// counter would overflow.
pub open spec fn evict_run(
    st: (Seq<StoredBundle>, Seq<(BundleDestination, Seq<BundleId>)>, int, int),
    capacity: int,
    v: Seq<Seq<char>>,
    to_free: int,
    freed: int,
) -> Option<(Seq<StoredBundle>, Seq<(BundleDestination, Seq<BundleId>)>, int, int)>
    decreases v.len(),
{
    if v.len() == 0 || freed >= to_free {
        Some(st)
    } else if holds(st.0, v[0]) {
        let st2 = remove_key(st, v[0]);
        if st2.2 > capacity || st2.3 >= u64::MAX {
            None
        } else {
            evict_run((st2.0, st2.1, st2.2, st2.3 + 1), capacity, v.drop_first(), to_free, capacity - st2.2)
        }
    } else {
        evict_run(st, capacity, v.drop_first(), to_free, freed)
    }
}

/// The state once room is made for `required` more bytes: unchanged when
/// they fit, else after evicting in the strategy's order.
pub open spec fn evicted(
    st: (Seq<StoredBundle>, Seq<(BundleDestination, Seq<BundleId>)>, int, int),
    capacity: int,
    strategy: EvictionStrategy,
    required: int,
) -> Option<(Seq<StoredBundle>, Seq<(BundleDestination, Seq<BundleId>)>, int, int)> {
    if st.2 + required <= capacity {
        Some(st)
    } else {
        evict_run(st, capacity, victims(st.0, strategy), st.2 + required - capacity, 0)
    }
}

/// Eviction never adds to the bytes used.
pub proof fn lemma_evict_run_used(
    st: (Seq<StoredBundle>, Seq<(BundleDestination, Seq<BundleId>)>, int, int),
    capacity: int,
    v: Seq<Seq<char>>,
    to_free: int,
    freed: int,
)
    requires
        st.2 >= 0,
        evict_run(st, capacity, v, to_free, freed) is Some,
    ensures
        0 <= evict_run(st, capacity, v, to_free, freed).unwrap().2 <= st.2,
    decreases v.len(),
{
    if v.len() > 0 && freed < to_free {
        if holds(st.0, v[0]) {
            let st2 = remove_key(st, v[0]);
            lemma_evict_run_used((st2.0, st2.1, st2.2, st2.3 + 1), capacity, v.drop_first(), to_free, capacity - st2.2);
        } else {
            lemma_evict_run_used(st, capacity, v.drop_first(), to_free, freed);
        }
    }
}

/// `first_not_below` is the first place whose key is not below `k`.
pub proof fn lemma_first_not_below_at(r: Seq<StoredBundle>, k: int, by_count: bool, p: int)
    requires
        0 <= p <= r.len(),
        forall|j: int| 0 <= j < p ==> usage_key(#[trigger] r[j], by_count) < k,
        p < r.len() ==> usage_key(r[p], by_count) >= k,
    ensures
        first_not_below(r, k, by_count) == p,
    decreases r.len(),
{
    if r.len() > 0 && p > 0 {
        assert(usage_key(r[0], by_count) < k);
        assert forall|j: int| 0 <= j < p - 1 implies usage_key(#[trigger] r.drop_first()[j], by_count) < k by {
            assert(r.drop_first()[j] == r[j + 1]);
        }
        if p < r.len() {
            assert(r.drop_first()[p - 1] == r[p]);
        }
        lemma_first_not_below_at(r.drop_first(), k, by_count, p - 1);
    }
}

/// The payload bytes of the bundles.
pub open spec fn total_payload(s: Seq<StoredBundle>) -> int
    decreases s.len(),
{
    if s.len() == 0 {
        0
    } else {
        total_payload(s.drop_last()) + s.last().bundle.payload_size
    }
}

/// Payload bytes add up over a concatenation.
pub proof fn lemma_total_concat(a: Seq<StoredBundle>, b: Seq<StoredBundle>)
    ensures
        total_payload(a + b) == total_payload(a) + total_payload(b),
    decreases b.len(),
{
    if b.len() == 0 {
        assert(a + b =~= a);
    } else {
        assert((a + b).drop_last() =~= a + b.drop_last());
        lemma_total_concat(a, b.drop_last());
    }
}

/// Payload bytes are never negative.
pub proof fn lemma_total_nonneg(s: Seq<StoredBundle>)
    ensures
        total_payload(s) >= 0,
    decreases s.len(),
{
    if s.len() > 0 {
        lemma_total_nonneg(s.drop_last());
    }
}

/// Payload bytes around the bundle at `p`.
pub proof fn lemma_total_at(s: Seq<StoredBundle>, p: int)
    requires
        0 <= p < s.len(),
    ensures
        total_payload(s) == total_payload(s.take(p)) + s[p].bundle.payload_size + total_payload(s.skip(p + 1)),
        total_payload(s.remove(p)) == total_payload(s) - s[p].bundle.payload_size,
        forall|x: StoredBundle| #[trigger] total_payload(s.update(p, x)) == total_payload(s) - s[p].bundle.payload_size
            + x.bundle.payload_size,
{
    let one = seq![s[p]];
    assert(s =~= s.take(p) + (one + s.skip(p + 1)));
    lemma_total_concat(s.take(p), one + s.skip(p + 1));
    lemma_total_concat(one, s.skip(p + 1));
    assert(one.drop_last() =~= Seq::<StoredBundle>::empty());
    assert(total_payload(one.drop_last()) == 0);
    assert(total_payload(one) == s[p].bundle.payload_size);
    assert(s.remove(p) =~= s.take(p) + s.skip(p + 1));
    lemma_total_concat(s.take(p), s.skip(p + 1));
    assert forall|x: StoredBundle| #[trigger] total_payload(s.update(p, x)) == total_payload(s) - s[p].bundle.payload_size
        + x.bundle.payload_size by {
        let xs = seq![x];
        assert(s.update(p, x) =~= s.take(p) + (xs + s.skip(p + 1)));
        lemma_total_concat(s.take(p), xs + s.skip(p + 1));
        lemma_total_concat(xs, s.skip(p + 1));
        assert(xs.drop_last() =~= Seq::<StoredBundle>::empty());
        assert(total_payload(xs) == x.bundle.payload_size);
    }
}

/// Payload bytes after inserting a bundle at `p`.
pub proof fn lemma_total_insert(s: Seq<StoredBundle>, p: int, x: StoredBundle)
    requires
        0 <= p <= s.len(),
    ensures
        total_payload(s.insert(p, x)) == total_payload(s) + x.bundle.payload_size,
{
    let xs = seq![x];
    assert(s.insert(p, x) =~= s.take(p) + (xs + s.skip(p)));
    assert(s =~= s.take(p) + s.skip(p));
    lemma_total_concat(s.take(p), s.skip(p));
    lemma_total_concat(s.take(p), xs + s.skip(p));
    lemma_total_concat(xs, s.skip(p));
    assert(xs.drop_last() =~= Seq::<StoredBundle>::empty());
    assert(total_payload(xs.drop_last()) == 0);
    assert(total_payload(xs) == x.bundle.payload_size);
}

/// `new` is `old` with a bundle put at `p`: in place of the one there
/// (`replace`), or inserted before it.
pub open spec fn placed(old: Seq<StoredBundle>, new: Seq<StoredBundle>, p: int, replace: bool) -> bool {
    if replace {
        &&& new.len() == old.len()
        &&& forall|k: int| 0 <= k < new.len() && k != p ==> new[k] == old[k]
    } else {
        &&& new.len() == old.len() + 1
        &&& forall|k: int| 0 <= k < p ==> new[k] == old[k]
        &&& forall|k: int| p < k < new.len() ==> new[k] == old[k - 1]
    }
}

/// `x` is `b` just stored at `now`: never accessed nor retransmitted,
/// with the digest of its payload.
pub open spec fn fresh(x: StoredBundle, b: PriorityBundle, now: i64) -> bool {
    &&& x.bundle == b
    &&& x.stored_at == now
    &&& x.access_count == 0
    &&& x.last_accessed == now
    &&& x.retransmission_count == 0
    &&& digest_ok(x)
}

/// `x` after an access at `now`.
pub open spec fn touched(x: StoredBundle, now: i64) -> StoredBundle {
    StoredBundle { access_count: (x.access_count + 1) as u32, last_accessed: now, ..x }
}

/// The stored bundles named by `ids`, in that order, skipping names of
/// bundles no longer stored.
pub open spec fn bundles_of(s: Seq<StoredBundle>, ids: Seq<BundleId>) -> Seq<PriorityBundle>
    decreases ids.len(),
{
    if ids.len() == 0 {
        Seq::empty()
    } else {
        let id = ids.last().0@;
        let p = lower_bound(s, id);
        if p < s.len() && key_of(s[p]) == id {
            bundles_of(s, ids.drop_last()).push(s[p].bundle)
        } else {
            bundles_of(s, ids.drop_last())
        }
    }
}

/// Identifiers of the bundles expired at `now`, in order.
pub open spec fn expired_keys(s: Seq<StoredBundle>, now: i64) -> Seq<Seq<char>>
    decreases s.len(),
{
    if s.len() == 0 {
        Seq::empty()
    } else if s.last().bundle.expires_at < now {
        expired_keys(s.drop_last(), now).push(key_of(s.last()))
    } else {
        expired_keys(s.drop_last(), now)
    }
}

/// Removal of each identifier of `ids` in turn.
pub open spec fn remove_all(
    st: (Seq<StoredBundle>, Seq<(BundleDestination, Seq<BundleId>)>, int, int),
    ids: Seq<Seq<char>>,
) -> (Seq<StoredBundle>, Seq<(BundleDestination, Seq<BundleId>)>, int, int)
    decreases ids.len(),
{
    if ids.len() == 0 {
        st
    } else {
        remove_all(remove_key(st, ids[0]), ids.drop_first())
    }
}

/// Whole seconds since a bundle was stored (truncated toward zero).
pub open spec fn age_seconds(b: StoredBundle, now: i64) -> int {
    div_trunc(now - b.stored_at, 1000)
}

/// Whole hours since a bundle was stored (truncated toward zero).
pub open spec fn age_hours(b: StoredBundle, now: i64) -> int {
    div_trunc(age_seconds(b, now), 3600)
}

/// The greatest age in hours, and at least 0.
pub open spec fn oldest_hours(s: Seq<StoredBundle>, now: i64) -> int
    decreases s.len(),
{
    if s.len() == 0 {
        0
    } else {
        let r = oldest_hours(s.drop_last(), now);
        let a = age_hours(s.last(), now);
        if a > r { a } else { r }
    }
}

/// The smallest age in seconds, or 0 when there is no bundle.
pub open spec fn newest_seconds(s: Seq<StoredBundle>, now: i64) -> int
    decreases s.len(),
{
    if s.len() == 0 {
        0
    } else if s.len() == 1 {
        age_seconds(s[0], now)
    } else {
        let r = newest_seconds(s.drop_last(), now);
        let a = age_seconds(s.last(), now);
        if a < r { a } else { r }
    }
}

/// What is stored can be read back: in bundles kept in identifier
/// order, the bundle just stored at `p` is the one found under its
/// identifier (`retrieve` gives back the bundle at `lower_bound`).
pub proof fn lemma_store_then_retrieve(s: Seq<StoredBundle>, p: int, b: PriorityBundle, now: i64)
    requires
        sorted_keys(s),
        0 <= p < s.len(),
        fresh(s[p], b, now),
    ensures
        holds(s, b.id.0@),
        lower_bound(s, b.id.0@) == p,
        s[lower_bound(s, b.id.0@)].bundle == b,
{
    let id = b.id.0@;
    assert forall|j: int| 0 <= j < p implies text_lt(key_of(#[trigger] s[j]), id) by {
        assert(text_lt(key_of(s[j]), key_of(s[p])));
    }
    lemma_text_lt_irreflexive(id);
    lemma_lower_bound_at(s, id, p);
    assert(key_of(s[p]) == id);
}

// ─── Cleanup removes exactly the expired bundles ───

/// The bundles kept by a predicate, in order.
pub open spec fn keep(s: Seq<StoredBundle>, f: spec_fn(StoredBundle) -> bool) -> Seq<StoredBundle>
    decreases s.len(),
{
    if s.len() == 0 {
        Seq::empty()
    } else if f(s.last()) {
        keep(s.drop_last(), f).push(s.last())
    } else {
        keep(s.drop_last(), f)
    }
}

/// The bundles not expired at `now`, in order.
pub open spec fn unexpired(s: Seq<StoredBundle>, now: i64) -> Seq<StoredBundle> {
    keep(s, |b: StoredBundle| !(b.bundle.expires_at < now))
}

/// What a predicate keeps is a subsequence: its bundles, in order, are
/// bundles of the whole at increasing places.
pub proof fn lemma_keep_sub(s: Seq<StoredBundle>, f: spec_fn(StoredBundle) -> bool)
    ensures
        keep(s, f).len() <= s.len(),
        forall|i: int| 0 <= i < keep(s, f).len() ==> f(#[trigger] keep(s, f)[i]),
        sorted_keys(s) ==> sorted_keys(keep(s, f)),
        forall|i: int| 0 <= i < keep(s, f).len() ==> exists|j: int| 0 <= j < s.len() && s[j] == #[trigger] keep(s, f)[i],
    decreases s.len(),
{
    if s.len() > 0 {
        let r = keep(s.drop_last(), f);
        lemma_keep_sub(s.drop_last(), f);
        assert forall|i: int| 0 <= i < r.len() implies exists|j: int| 0 <= j < s.len() && s[j] == #[trigger] r[i] by {
            let j = choose|j: int| 0 <= j < s.drop_last().len() && s.drop_last()[j] == r[i];
            assert(s[j] == r[i]);
        }
        if f(s.last()) {
            let k = r.push(s.last());
            assert forall|i: int| 0 <= i < k.len() implies exists|j: int| 0 <= j < s.len() && s[j] == #[trigger] k[i] by {
                if i < r.len() {
                    assert(k[i] == r[i]);
                } else {
                    assert(s[s.len() - 1] == k[i]);
                }
            }
            if sorted_keys(s) {
                assert(sorted_keys(s.drop_last())) by {
                    assert forall|a: int, b: int| 0 <= a < b < s.drop_last().len() implies
                        text_lt(#[trigger] key_of(s.drop_last()[a]), #[trigger] key_of(s.drop_last()[b])) by {
                        assert(s.drop_last()[a] == s[a]);
                        assert(s.drop_last()[b] == s[b]);
                    }
                }
                assert forall|a: int, b: int| 0 <= a < b < k.len() implies
                    text_lt(#[trigger] key_of(k[a]), #[trigger] key_of(k[b])) by {
                    if b == k.len() - 1 {
                        let j = choose|j: int| 0 <= j < s.drop_last().len() && s.drop_last()[j] == r[a];
                        assert(s[j] == k[a]);
                        assert(s[s.len() - 1] == k[b]);
                    } else {
                        assert(k[a] == r[a]);
                        assert(k[b] == r[b]);
                    }
                }
            }
        } else {
            if sorted_keys(s) {
                assert forall|a: int, b: int| 0 <= a < b < s.drop_last().len() implies
                    text_lt(#[trigger] key_of(s.drop_last()[a]), #[trigger] key_of(s.drop_last()[b])) by {
                    assert(s.drop_last()[a] == s[a]);
                    assert(s.drop_last()[b] == s[b]);
                }
            }
        }
    }
}

/// Keeping by two predicates that agree on the bundles of `s` keeps the
/// same bundles.
pub proof fn lemma_keep_agree(s: Seq<StoredBundle>, f: spec_fn(StoredBundle) -> bool, g: spec_fn(StoredBundle) -> bool)
    requires
        forall|i: int| 0 <= i < s.len() ==> f(#[trigger] s[i]) == g(s[i]),
    ensures
        keep(s, f) == keep(s, g),
    decreases s.len(),
{
    if s.len() > 0 {
        assert(f(s[s.len() - 1]) == g(s[s.len() - 1]));
        assert forall|i: int| 0 <= i < s.drop_last().len() implies f(#[trigger] s.drop_last()[i]) == g(s.drop_last()[i]) by {
            assert(s.drop_last()[i] == s[i]);
        }
        lemma_keep_agree(s.drop_last(), f, g);
    }
}

/// Keeping twice keeps by both predicates.
pub proof fn lemma_keep_keep(s: Seq<StoredBundle>, f: spec_fn(StoredBundle) -> bool, g: spec_fn(StoredBundle) -> bool)
    ensures
        keep(keep(s, f), g) == keep(s, |b: StoredBundle| f(b) && g(b)),
    decreases s.len(),
{
    if s.len() > 0 {
        lemma_keep_keep(s.drop_last(), f, g);
        let r = keep(s.drop_last(), f);
        if f(s.last()) {
            assert(r.push(s.last()).drop_last() =~= r);
        }
    }
}

/// In a sorted sequence, removing the bundle with identifier `id` keeps
/// every bundle with another identifier.
pub proof fn lemma_remove_key_keeps_others(
    st: (Seq<StoredBundle>, Seq<(BundleDestination, Seq<BundleId>)>, int, int),
    id: Seq<char>,
)
    requires
        sorted_keys(st.0),
    ensures
        remove_key(st, id).0 == keep(st.0, |b: StoredBundle| key_of(b) != id),
{
    let s = st.0;
    let p = lower_bound(s, id);
    lemma_lower_bound_props(s, id);
    lemma_sorted_place(s, id, p);
    if p < s.len() && key_of(s[p]) == id {
        lemma_keep_removes_one(s, id, p);
    } else {
        lemma_keep_all(s, |b: StoredBundle| key_of(b) != id);
    }
}

/// What `lower_bound` finds: everything before sorts below the identifier,
/// the bundle there does not.
pub proof fn lemma_lower_bound_props(s: Seq<StoredBundle>, id: Seq<char>)
    ensures
        0 <= lower_bound(s, id) <= s.len(),
        forall|j: int| 0 <= j < lower_bound(s, id) ==> text_lt(key_of(#[trigger] s[j]), id),
        lower_bound(s, id) < s.len() ==> !text_lt(key_of(s[lower_bound(s, id)]), id),
    decreases s.len(),
{
    if s.len() > 0 && text_lt(key_of(s[0]), id) {
        lemma_lower_bound_props(s.drop_first(), id);
        assert forall|j: int| 0 <= j < lower_bound(s, id) implies text_lt(key_of(#[trigger] s[j]), id) by {
            if j > 0 {
                assert(s[j] == s.drop_first()[j - 1]);
            }
        }
    }
}

/// A predicate that keeps every bundle keeps the sequence.
pub proof fn lemma_keep_all(s: Seq<StoredBundle>, f: spec_fn(StoredBundle) -> bool)
    requires
        forall|i: int| 0 <= i < s.len() ==> f(#[trigger] s[i]),
    ensures
        keep(s, f) == s,
    decreases s.len(),
{
    if s.len() > 0 {
        assert(f(s[s.len() - 1]));
        assert forall|i: int| 0 <= i < s.drop_last().len() implies f(#[trigger] s.drop_last()[i]) by {
            assert(s.drop_last()[i] == s[i]);
        }
        lemma_keep_all(s.drop_last(), f);
        assert(s.drop_last().push(s.last()) =~= s);
    }
}

/// Keeping the bundles whose identifier is not that of the bundle at `p`,
/// in a sorted sequence, removes just that bundle.
pub proof fn lemma_keep_removes_one(s: Seq<StoredBundle>, id: Seq<char>, p: int)
    requires
        sorted_keys(s),
        0 <= p < s.len(),
        key_of(s[p]) == id,
    ensures
        keep(s, |b: StoredBundle| key_of(b) != id) == s.remove(p),
    decreases s.len(),
{
    let f = |b: StoredBundle| key_of(b) != id;
    let t = s.drop_last();
    assert forall|a: int, b: int| 0 <= a < b < t.len() implies text_lt(#[trigger] key_of(t[a]), #[trigger] key_of(t[b])) by {
        assert(t[a] == s[a]);
        assert(t[b] == s[b]);
    }
    if p == s.len() - 1 {
        assert forall|i: int| 0 <= i < t.len() implies f(#[trigger] t[i]) by {
            assert(t[i] == s[i]);
            assert(text_lt(key_of(s[i]), key_of(s[p])));
            lemma_text_lt_irreflexive(id);
        }
        lemma_keep_all(t, f);
        assert(s.remove(p) =~= t);
    } else {
        lemma_keep_removes_one(t, id, p);
        assert(text_lt(key_of(s[p]), key_of(s[s.len() - 1])));
        lemma_text_lt_irreflexive(id);
        assert(f(s.last()));
        assert(t.remove(p).push(s.last()) =~= s.remove(p));
    }
}

/// The bundles with none of the identifiers `ids`.
pub open spec fn without_keys(ids: Seq<Seq<char>>) -> spec_fn(StoredBundle) -> bool {
    |b: StoredBundle| !ids.contains(key_of(b))
}

/// Removing identifiers one by one from a sorted sequence keeps the
/// bundles whose identifier is none of them.
pub proof fn lemma_remove_all_keeps(
    st: (Seq<StoredBundle>, Seq<(BundleDestination, Seq<BundleId>)>, int, int),
    ids: Seq<Seq<char>>,
)
    requires
        sorted_keys(st.0),
    ensures
        remove_all(st, ids).0 == keep(st.0, without_keys(ids)),
    decreases ids.len(),
{
    if ids.len() == 0 {
        lemma_keep_all(st.0, without_keys(ids));
    } else {
        let st2 = remove_key(st, ids[0]);
        let f = |b: StoredBundle| key_of(b) != ids[0];
        lemma_remove_key_keeps_others(st, ids[0]);
        lemma_keep_sub(st.0, f);
        lemma_remove_all_keeps(st2, ids.drop_first());
        lemma_keep_keep(st.0, f, without_keys(ids.drop_first()));
        let both = |b: StoredBundle| f(b) && without_keys(ids.drop_first())(b);
        assert forall|i: int| 0 <= i < st.0.len() implies both(#[trigger] st.0[i]) == without_keys(ids)(st.0[i]) by {
            let k = key_of(st.0[i]);
            if ids.contains(k) {
                let j = choose|j: int| 0 <= j < ids.len() && ids[j] == k;
                if j > 0 {
                    assert(ids.drop_first()[j - 1] == k);
                }
            }
            if ids.drop_first().contains(k) {
                let j = choose|j: int| 0 <= j < ids.drop_first().len() && ids.drop_first()[j] == k;
                assert(ids[j + 1] == k);
            }
            if k == ids[0] {
                assert(ids.contains(k)) by {
                    assert(ids[0] == k);
                }
            }
        }
        lemma_keep_agree(st.0, both, without_keys(ids));
    }
}

/// The expired identifiers are those of the expired bundles.
pub proof fn lemma_expired_keys_of(s: Seq<StoredBundle>, now: i64, b: StoredBundle)
    requires
        sorted_keys(s),
        s.contains(b),
    ensures
        expired_keys(s, now).contains(key_of(b)) == (b.bundle.expires_at < now),
    decreases s.len(),
{
    let t = s.drop_last();
    let e = expired_keys(t, now);
    assert forall|a: int, c: int| 0 <= a < c < t.len() implies text_lt(#[trigger] key_of(t[a]), #[trigger] key_of(t[c])) by {
        assert(t[a] == s[a]);
        assert(t[c] == s[c]);
    }
    lemma_expired_keys_within(t, now);
    if b == s.last() {
        lemma_text_lt_irreflexive(key_of(b));
        assert(!e.contains(key_of(b))) by {
            if e.contains(key_of(b)) {
                let j = choose|j: int| 0 <= j < e.len() && e[j] == key_of(b);
                let i = choose|i: int| 0 <= i < t.len() && key_of(t[i]) == e[j];
                assert(text_lt(key_of(s[i]), key_of(s[s.len() - 1])));
            }
        }
        if b.bundle.expires_at < now {
            assert(expired_keys(s, now) == e.push(key_of(b)));
            assert(expired_keys(s, now)[e.len() as int] == key_of(b));
        }
    } else {
        let k = choose|k: int| 0 <= k < s.len() && s[k] == b;
        assert(k < s.len() - 1);
        assert(t[k] == b);
        lemma_expired_keys_of(t, now, b);
        if s.last().bundle.expires_at < now {
            assert(text_lt(key_of(s[k]), key_of(s[s.len() - 1])));
            lemma_text_lt_irreflexive(key_of(b));
            let ep = e.push(key_of(s.last()));
            assert(expired_keys(s, now) == ep);
            if e.contains(key_of(b)) {
                let j = choose|j: int| 0 <= j < e.len() && e[j] == key_of(b);
                assert(ep[j] == key_of(b));
            }
            if ep.contains(key_of(b)) {
                let j = choose|j: int| 0 <= j < ep.len() && ep[j] == key_of(b);
                if j < e.len() {
                    assert(e[j] == key_of(b));
                }
            }
        }
    }
}

/// Every expired identifier is that of a bundle of the sequence.
pub proof fn lemma_expired_keys_within(s: Seq<StoredBundle>, now: i64)
    ensures
        forall|j: int| 0 <= j < expired_keys(s, now).len() ==>
            exists|i: int| 0 <= i < s.len() && key_of(s[i]) == #[trigger] expired_keys(s, now)[j],
    decreases s.len(),
{
    if s.len() > 0 {
        let t = s.drop_last();
        lemma_expired_keys_within(t, now);
        let e = expired_keys(t, now);
        assert forall|j: int| 0 <= j < expired_keys(s, now).len() implies
            exists|i: int| 0 <= i < s.len() && key_of(s[i]) == #[trigger] expired_keys(s, now)[j] by {
            if j < e.len() {
                assert(expired_keys(s, now)[j] == e[j]);
                let i = choose|i: int| 0 <= i < t.len() && key_of(t[i]) == e[j];
                assert(s[i] == t[i]);
            } else {
                assert(key_of(s[s.len() - 1]) == expired_keys(s, now)[j]);
            }
        }
    }
}

/// Cleanup drops exactly the expired bundles: what stays is, in order,
/// every bundle whose expiry is not before `now`.
pub proof fn lemma_cleanup_keeps_unexpired(
    st: (Seq<StoredBundle>, Seq<(BundleDestination, Seq<BundleId>)>, int, int),
    now: i64,
)
    requires
        sorted_keys(st.0),
    ensures
        remove_all(st, expired_keys(st.0, now)).0 == unexpired(st.0, now),
{
    let ids = expired_keys(st.0, now);
    lemma_remove_all_keeps(st, ids);
    assert forall|i: int| 0 <= i < st.0.len() implies without_keys(ids)(#[trigger] st.0[i])
        == (|b: StoredBundle| !(b.bundle.expires_at < now))(st.0[i]) by {
        assert(st.0.contains(st.0[i]));
        lemma_expired_keys_of(st.0, now, st.0[i]);
    }
    lemma_keep_agree(st.0, without_keys(ids), |b: StoredBundle| !(b.bundle.expires_at < now));
}

/// What a predicate keeps includes every bundle that satisfies it.
pub proof fn lemma_keep_contains(s: Seq<StoredBundle>, f: spec_fn(StoredBundle) -> bool, x: StoredBundle)
    requires
        s.contains(x),
        f(x),
    ensures
        keep(s, f).contains(x),
    decreases s.len(),
{
    let r = keep(s.drop_last(), f);
    if s.last() == x {
        assert(keep(s, f) == r.push(x));
        assert(keep(s, f)[r.len() as int] == x);
    } else {
        let j = choose|j: int| 0 <= j < s.len() && s[j] == x;
        assert(j < s.len() - 1);
        assert(s.drop_last()[j] == x);
        lemma_keep_contains(s.drop_last(), f, x);
        let k = choose|k: int| 0 <= k < r.len() && r[k] == x;
        if f(s.last()) {
            assert(keep(s, f)[k] == x);
        }
    }
}

/// Every identifier the lowest-priority strategy offers belongs to a
/// stored Maintenance or ScienceBulk bundle.
pub proof fn lemma_low_priority_keys_are_low(s: Seq<StoredBundle>)
    ensures
        forall|i: int| #![trigger low_priority_keys(s)[i]] 0 <= i < low_priority_keys(s).len() ==> exists|j: int|
            0 <= j < s.len() && #[trigger] key_of(s[j]) == low_priority_keys(s)[i]
                && (s[j].bundle.priority == BundlePriority::Maintenance
                    || s[j].bundle.priority == BundlePriority::ScienceBulk),
    decreases s.len(),
{
    if s.len() > 0 {
        let r = low_priority_keys(s.drop_last());
        lemma_low_priority_keys_are_low(s.drop_last());
        assert forall|i: int| #![trigger low_priority_keys(s)[i]] 0 <= i < low_priority_keys(s).len() implies exists|j: int|
            0 <= j < s.len() && #[trigger] key_of(s[j]) == low_priority_keys(s)[i]
                && (s[j].bundle.priority == BundlePriority::Maintenance
                    || s[j].bundle.priority == BundlePriority::ScienceBulk) by {
            if i < r.len() {
                assert(low_priority_keys(s)[i] == r[i]);
                let j = choose|j: int| 0 <= j < s.drop_last().len() && #[trigger] key_of(s.drop_last()[j]) == r[i]
                    && (s.drop_last()[j].bundle.priority == BundlePriority::Maintenance
                        || s.drop_last()[j].bundle.priority == BundlePriority::ScienceBulk);
                assert(s[j] == s.drop_last()[j]);
            } else {
                assert(low_priority_keys(s)[i] == key_of(s.last()));
                assert(key_of(s[s.len() - 1]) == low_priority_keys(s)[i]);
            }
        }
    }
}

/// The lowest-priority strategy offers exactly the Maintenance and
/// ScienceBulk bundles, in storage order.
pub proof fn lemma_low_priority_keys_exact(s: Seq<StoredBundle>)
    ensures
        low_priority_keys(s) == all_keys(keep(s, |b: StoredBundle| b.bundle.priority == BundlePriority::Maintenance
            || b.bundle.priority == BundlePriority::ScienceBulk)),
    decreases s.len(),
{
    let f = |b: StoredBundle| b.bundle.priority == BundlePriority::Maintenance
        || b.bundle.priority == BundlePriority::ScienceBulk;
    if s.len() == 0 {
        assert(all_keys(keep(s, f)) =~= Seq::<Seq<char>>::empty());
    } else {
        lemma_low_priority_keys_exact(s.drop_last());
        let r = keep(s.drop_last(), f);
        if f(s.last()) {
            assert(all_keys(r.push(s.last())) =~= all_keys(r).push(key_of(s.last())));
        }
    }
}

/// Eviction along `v` keeps every stored bundle whose identifier is not
/// in `v`.
pub proof fn lemma_evict_run_keeps(
    st: (Seq<StoredBundle>, Seq<(BundleDestination, Seq<BundleId>)>, int, int),
    capacity: int,
    v: Seq<Seq<char>>,
    to_free: int,
    freed: int,
    b: StoredBundle,
)
    requires
        sorted_keys(st.0),
        st.0.contains(b),
        !v.contains(key_of(b)),
        evict_run(st, capacity, v, to_free, freed) is Some,
    ensures
        evict_run(st, capacity, v, to_free, freed).unwrap().0.contains(b),
    decreases v.len(),
{
    if v.len() > 0 && freed < to_free {
        assert(!v.drop_first().contains(key_of(b))) by {
            if v.drop_first().contains(key_of(b)) {
                let j = choose|j: int| 0 <= j < v.drop_first().len() && v.drop_first()[j] == key_of(b);
                assert(v[j + 1] == key_of(b));
            }
        }
        if holds(st.0, v[0]) {
            let st2 = remove_key(st, v[0]);
            let f = |x: StoredBundle| key_of(x) != v[0];
            assert(v[0] != key_of(b)) by {
                if v[0] == key_of(b) {
                    assert(v.contains(key_of(b)));
                }
            }
            lemma_remove_key_keeps_others(st, v[0]);
            lemma_keep_sub(st.0, f);
            lemma_keep_contains(st.0, f, b);
            lemma_evict_run_keeps((st2.0, st2.1, st2.2, st2.3 + 1), capacity, v.drop_first(), to_free, capacity - st2.2, b);
        } else {
            lemma_evict_run_keeps(st, capacity, v.drop_first(), to_free, freed, b);
        }
    }
}

/// Under the lowest-priority strategy, making room evicts Maintenance and
/// ScienceBulk bundles only: every stored bundle of priority ScienceNormal
/// or above is still stored afterwards.
pub proof fn lemma_lowest_priority_spares_higher(
    st: (Seq<StoredBundle>, Seq<(BundleDestination, Seq<BundleId>)>, int, int),
    capacity: int,
    required: int,
    b: StoredBundle,
)
    requires
        sorted_keys(st.0),
        st.0.contains(b),
        b.bundle.priority != BundlePriority::Maintenance,
        b.bundle.priority != BundlePriority::ScienceBulk,
        evicted(st, capacity, EvictionStrategy::LowestPriority, required) is Some,
    ensures
        evicted(st, capacity, EvictionStrategy::LowestPriority, required).unwrap().0.contains(b),
{
    if st.2 + required > capacity {
        let v = low_priority_keys(st.0);
        assert(!v.contains(key_of(b))) by {
            if v.contains(key_of(b)) {
                let i = choose|i: int| 0 <= i < v.len() && v[i] == key_of(b);
                lemma_low_priority_keys_are_low(st.0);
                let j = choose|j: int| 0 <= j < st.0.len() && #[trigger] key_of(st.0[j]) == v[i]
                    && (st.0[j].bundle.priority == BundlePriority::Maintenance
                        || st.0[j].bundle.priority == BundlePriority::ScienceBulk);
                let m = choose|m: int| 0 <= m < st.0.len() && st.0[m] == b;
                lemma_text_lt_irreflexive(key_of(b));
                if j < m {
                    assert(text_lt(key_of(st.0[j]), key_of(st.0[m])));
                } else if m < j {
                    assert(text_lt(key_of(st.0[m]), key_of(st.0[j])));
                }
            }
        }
        lemma_evict_run_keeps(st, capacity, v, st.2 + required - capacity, 0, b);
    }
}

/// The stored bundles with the payload bytes they take, kept and
/// replaced together.
struct Ledger {
    bundles: Vec<StoredBundle>,
    used: u64,
}

/// The buffer.
pub struct StoreForwardSystem {
    ledger: Ledger,
    by_destination: Vec<(BundleDestination, Vec<BundleId>)>,
    total_capacity: u64,
    eviction_strategy: EvictionStrategy,
    eviction_count: u64,
}

impl StoreForwardSystem {
    /// Bundles in strictly increasing identifier order, each with the
    /// digest of its payload, stored at a representable time; the bytes
    /// counted as used are the payload bytes of the stored bundles.
    #[verifier::type_invariant]
    spec fn well_formed(self) -> bool {
        &&& self.ledger.used as int == total_payload(self.ledger.bundles@)
        &&& sorted_keys(self.ledger.bundles@)
        &&& forall|k: int| 0 <= k < self.ledger.bundles@.len() ==> digest_ok(#[trigger] self.ledger.bundles@[k])
        &&& forall|k: int| 0 <= k < self.ledger.bundles@.len() ==> in_clock_range(#[trigger] self.ledger.bundles@[k].stored_at)
    }

    /// The stored bundles, in identifier order.
    pub closed spec fn stored(self) -> Seq<StoredBundle> {
        self.ledger.bundles@
    }

    /// The destination index: per destination, identifiers in storage order.
    pub closed spec fn index(self) -> Seq<(BundleDestination, Seq<BundleId>)> {
        self.by_destination@.map_values(|e: (BundleDestination, Vec<BundleId>)| (e.0, e.1@))
    }

    /// Capacity in bytes.
    pub closed spec fn capacity(self) -> u64 {
        self.total_capacity
    }

    /// Bytes counted as used.
    pub closed spec fn used(self) -> u64 {
        self.ledger.used
    }

    /// The eviction strategy.
    pub closed spec fn strategy(self) -> EvictionStrategy {
        self.eviction_strategy
    }

    /// Bundles evicted so far.
    pub closed spec fn evictions(self) -> u64 {
        self.eviction_count
    }

    /// The state as a tuple (bundles, index, bytes used, evictions).
    pub open spec fn model(self) -> (Seq<StoredBundle>, Seq<(BundleDestination, Seq<BundleId>)>, int, int) {
        (self.stored(), self.index(), self.used() as int, self.evictions() as int)
    }

    /// An empty buffer of `total_capacity_bytes` that evicts the lowest
    /// priorities first.
    pub fn new(total_capacity_bytes: u64) -> (s: Self)
        ensures
            s.stored().len() == 0,
            s.index().len() == 0,
            s.capacity() == total_capacity_bytes,
            s.used() == 0,
            s.strategy() == EvictionStrategy::LowestPriority,
            s.evictions() == 0,
    {
        StoreForwardSystem {
            ledger: Ledger { bundles: Vec::new(), used: 0 },
            by_destination: Vec::new(),
            total_capacity: total_capacity_bytes,
            eviction_strategy: EvictionStrategy::LowestPriority,
            eviction_count: 0,
        }
    }

    /// An empty buffer of `total_capacity_bytes` with the given strategy.
    pub fn with_eviction(total_capacity_bytes: u64, strategy: EvictionStrategy) -> (s: Self)
        ensures
            s.stored().len() == 0,
            s.index().len() == 0,
            s.capacity() == total_capacity_bytes,
            s.used() == 0,
            s.strategy() == strategy,
            s.evictions() == 0,
    {
        let mut system = Self::new(total_capacity_bytes);
        system.eviction_strategy = strategy;
        system
    }

    /// Where identifier `id` goes in the order (`lower_bound`).
    fn find_place(&self, id: &str) -> (p: usize)
        ensures
            p == lower_bound(self.stored(), id@),
            p <= self.stored().len(),
            forall|j: int| 0 <= j < p ==> text_lt(key_of(#[trigger] self.stored()[j]), id@),
            p < self.stored().len() ==> !text_lt(key_of(self.stored()[p as int]), id@),
    {
        let mut p: usize = 0;
        while p < self.ledger.bundles.len() && text_less(self.ledger.bundles[p].bundle.id.0.as_str(), id)
            invariant
                p <= self.ledger.bundles@.len(),
                forall|j: int| 0 <= j < p ==> text_lt(key_of(#[trigger] self.ledger.bundles@[j]), id@),
            decreases self.ledger.bundles@.len() - p,
        {
            p = p + 1;
        }
        proof {
            lemma_lower_bound_at(self.ledger.bundles@, id@, p as int);
        }
        p
    }

    /// The index entry for a destination (`entry_of`).
    fn find_entry(&self, d: &BundleDestination) -> (e: usize)
        ensures
            e == entry_of(self.index(), *d),
            e <= self.index().len(),
    {
        let mut e: usize = 0;
        while e < self.by_destination.len() && !same_destination(&self.by_destination[e].0, d)
            invariant
                e <= self.by_destination@.len(),
                self.index().len() == self.by_destination@.len(),
                forall|j: int| 0 <= j < e ==> !same_dest(#[trigger] self.index()[j].0, *d),
            decreases self.by_destination@.len() - e,
        {
            e = e + 1;
        }
        proof {
            lemma_entry_at(self.index(), *d, e as int);
        }
        e
    }

    /// Records `id` under destination `d`.
    fn index_record(&mut self, d: BundleDestination, id: BundleId)
        ensures
            final(self).index() == index_add(old(self).index(), d, id),
            final(self).stored() == old(self).stored(),
            final(self).capacity() == old(self).capacity(),
            final(self).used() == old(self).used(),
            final(self).strategy() == old(self).strategy(),
            final(self).evictions() == old(self).evictions(),
    {
        proof {
            use_type_invariant(&*self);
        }
        let e = self.find_entry(&d);
        let ghost ix = self.index();
        let mut bd: Vec<(BundleDestination, Vec<BundleId>)> = Vec::new();
        std::mem::swap(&mut bd, &mut self.by_destination);
        if e < bd.len() {
            let (dd, mut ids) = bd.remove(e);
            ids.push(id);
            bd.insert(e, (dd, ids));
        } else {
            let mut ids: Vec<BundleId> = Vec::new();
            ids.push(id);
            bd.push((d, ids));
        }
        self.by_destination = bd;
        proof {
            assert(self.index() =~= index_add(ix, d, id));
        }
    }

    /// Forgets `id` under destination `d`.
    fn index_forget(&mut self, d: &BundleDestination, id: &str)
        ensures
            final(self).index() == index_drop(old(self).index(), *d, id@),
            final(self).stored() == old(self).stored(),
            final(self).capacity() == old(self).capacity(),
            final(self).used() == old(self).used(),
            final(self).strategy() == old(self).strategy(),
            final(self).evictions() == old(self).evictions(),
    {
        proof {
            use_type_invariant(&*self);
        }
        let e = self.find_entry(d);
        let ghost ix = self.index();
        if e < self.by_destination.len() {
            let mut bd: Vec<(BundleDestination, Vec<BundleId>)> = Vec::new();
            std::mem::swap(&mut bd, &mut self.by_destination);
            let (dd, ids) = bd.remove(e);
            let mut kept: Vec<BundleId> = Vec::new();
            let mut i: usize = 0;
            while i < ids.len()
                invariant
                    i <= ids@.len(),
                    kept@ == without_id(ids@.take(i as int), id@),
                decreases ids@.len() - i,
            {
                proof {
                    assert(ids@.take(i + 1).drop_last() =~= ids@.take(i as int));
                }
                if !str_eq(ids[i].0.as_str(), id) {
                    kept.push(ids[i].clone());
                }
                i = i + 1;
            }
            proof {
                assert(ids@.take(ids@.len() as int) =~= ids@);
            }
            bd.insert(e, (dd, kept));
            self.by_destination = bd;
            proof {
                assert(self.index() =~= index_drop(ix, *d, id@));
            }
        }
    }

    /// Removes the bundle with this identifier (after a successful
    /// transmission); whether it was stored.
    pub fn remove(&mut self, id: &BundleId) -> (r: bool)
        ensures
            r == holds(old(self).stored(), id.0@),
            final(self).model() == remove_key(old(self).model(), id.0@),
            !r ==> final(self).model() == old(self).model(),
            final(self).capacity() == old(self).capacity(),
            final(self).strategy() == old(self).strategy(),
    {
        proof {
            use_type_invariant(&*self);
        }
        let p = self.find_place(id.0.as_str());
        proof {
            lemma_sorted_place(self.ledger.bundles@, id.0@, p as int);
        }
        if p < self.ledger.bundles.len() && str_eq(self.ledger.bundles[p].bundle.id.0.as_str(), id.0.as_str()) {
            let ghost before = self.model();
            let mut led = Ledger { bundles: Vec::new(), used: 0 };
            std::mem::swap(&mut led, &mut self.ledger);
            let Ledger { bundles: mut st, used } = led;
            let ghost whole = st@;
            let stored = st.remove(p);
            proof {
                lemma_total_at(whole, p as int);
                lemma_total_nonneg(st@);
                assert forall|i: int, j: int| 0 <= i < j < st@.len() implies text_lt(#[trigger] key_of(st@[i]), #[trigger] key_of(st@[j])) by {
                    let oi = if i < p { i } else { i + 1 };
                    let oj = if j < p { j } else { j + 1 };
                    assert(st@[i] == whole[oi]);
                    assert(st@[j] == whole[oj]);
                }
                assert forall|k: int| 0 <= k < st@.len() implies digest_ok(#[trigger] st@[k]) && in_clock_range(st@[k].stored_at) by {
                    let ok = if k < p { k } else { k + 1 };
                    assert(st@[k] == whole[ok]);
                }
            }
            self.ledger = Ledger { bundles: st, used: used.saturating_sub(stored.bundle.payload_size) };
            self.index_forget(&stored.bundle.destination, id.0.as_str());
            proof {
                assert(self.model() == remove_key(before, id.0@));
            }
            true
        } else {
            false
        }
    }

    /// The identifiers of the bundles, stably sorted by usage key.
    fn usage_ids(&self, by_count: bool) -> (v: Vec<BundleId>)
        ensures
            v@.map_values(|b: BundleId| b.0@) == all_keys(usage_order(self.stored(), by_count)),
    {
        let s = &self.ledger.bundles;
        let mut order: Vec<usize> = Vec::new();
        let mut i: usize = s.len();
        proof {
            assert(s@.skip(s@.len() as int) =~= Seq::<StoredBundle>::empty());
            assert(order@.map_values(|k: usize| s@[k as int]) =~= Seq::<StoredBundle>::empty());
        }
        while i > 0
            invariant
                i <= s@.len(),
                forall|k: int| 0 <= k < order@.len() ==> order@[k] < s@.len(),
                order@.map_values(|k: usize| s@[k as int]) == usage_order(s@.skip(i as int), by_count),
            decreases i,
        {
            i = i - 1;
            let key = usage_key_of(&s[i], by_count);
            let ghost r = usage_order(s@.skip(i + 1), by_count);
            let mut q: usize = 0;
            while q < order.len() && usage_key_of(&s[order[q]], by_count) < key
                invariant
                    q <= order@.len(),
                    i < s@.len(),
                    forall|k: int| 0 <= k < order@.len() ==> order@[k] < s@.len(),
                    order@.map_values(|k: usize| s@[k as int]) == r,
                    key == usage_key(s@[i as int], by_count),
                    forall|j: int| 0 <= j < q ==> usage_key(#[trigger] r[j], by_count) < key,
                decreases order@.len() - q,
            {
                proof {
                    assert(r[q as int] == s@[order@[q as int] as int]);
                }
                q = q + 1;
            }
            proof {
                if q < order@.len() {
                    assert(r[q as int] == s@[order@[q as int] as int]);
                }
                lemma_first_not_below_at(r, key as int, by_count, q as int);
                assert(s@.skip(i as int).drop_first() =~= s@.skip(i + 1));
                assert(s@.skip(i as int)[0] == s@[i as int]);
            }
            order.insert(q, i);
            proof {
                assert(order@.map_values(|k: usize| s@[k as int]) =~= r.insert(q as int, s@[i as int]));
            }
        }
        proof {
            assert(s@.skip(0) =~= s@);
        }
        let ghost sorted = order@.map_values(|k: usize| s@[k as int]);
        let mut v: Vec<BundleId> = Vec::new();
        let mut k: usize = 0;
        while k < order.len()
            invariant
                k <= order@.len(),
                forall|j: int| 0 <= j < order@.len() ==> order@[j] < s@.len(),
                sorted == order@.map_values(|k: usize| s@[k as int]),
                v@.map_values(|b: BundleId| b.0@) == all_keys(sorted).take(k as int),
                v@.len() == k,
            decreases order@.len() - k,
        {
            let id = s[order[k]].bundle.id.clone();
            let ghost before = v@;
            v.push(id);
            proof {
                assert(sorted[k as int] == s@[order@[k as int] as int]);
                assert(v@[k as int] == id);
                assert(all_keys(sorted)[k as int] == id.0@);
                assert forall|j: int| 0 <= j < k implies v@[j] == before[j] by {}
                assert(v@.map_values(|b: BundleId| b.0@) =~= all_keys(sorted).take(k + 1));
            }
            k = k + 1;
        }
        proof {
            assert(all_keys(sorted).take(order@.len() as int) =~= all_keys(sorted));
        }
        v
    }

    /// The identifiers in the order the strategy offers them for eviction.
    fn victim_ids(&self) -> (v: Vec<BundleId>)
        ensures
            v@.map_values(|b: BundleId| b.0@) == victims(self.stored(), self.strategy()),
    {
        match self.eviction_strategy {
            EvictionStrategy::LeastFrequentlyUsed => self.usage_ids(true),
            EvictionStrategy::LeastRecentlyUsed => self.usage_ids(false),
            EvictionStrategy::LowestPriority => {
                let s = &self.ledger.bundles;
                let mut v: Vec<BundleId> = Vec::new();
                let mut i: usize = 0;
                while i < s.len()
                    invariant
                        i <= s@.len(),
                        v@.map_values(|b: BundleId| b.0@) == low_priority_keys(s@.take(i as int)),
                    decreases s@.len() - i,
                {
                    proof {
                        assert(s@.take(i + 1).drop_last() =~= s@.take(i as int));
                    }
                    if s[i].bundle.priority.rank() <= 1 {
                        v.push(s[i].bundle.id.clone());
                        proof {
                            assert(v@.map_values(|b: BundleId| b.0@) =~= low_priority_keys(s@.take(i + 1)));
                        }
                    } else {
                        proof {
                            assert(v@.map_values(|b: BundleId| b.0@) =~= low_priority_keys(s@.take(i + 1)));
                        }
                    }
                    i = i + 1;
                }
                proof {
                    assert(s@.take(s@.len() as int) =~= s@);
                }
                v
            },
            EvictionStrategy::OldestFirst => {
                let s = &self.ledger.bundles;
                let mut v: Vec<BundleId> = Vec::new();
                let mut i: usize = 0;
                while i < s.len()
                    invariant
                        i <= s@.len(),
                        v@.map_values(|b: BundleId| b.0@) == all_keys(s@).take(i as int),
                        v@.len() == i,
                    decreases s@.len() - i,
                {
                    let id = s[i].bundle.id.clone();
                    let ghost before = v@;
                    v.push(id);
                    proof {
                        assert(v@[i as int] == id);
                        assert(all_keys(s@)[i as int] == id.0@);
                        assert forall|j: int| 0 <= j < i implies v@[j] == before[j] by {}
                        assert(v@.map_values(|b: BundleId| b.0@) =~= all_keys(s@).take(i + 1));
                    }
                    i = i + 1;
                }
                proof {
                    assert(all_keys(s@).take(s@.len() as int) =~= all_keys(s@));
                }
                v
            },
        }
    }

    /// Makes room for `required` more bytes: when they do not fit, evicts
    /// in the strategy's order until the free space covers them (or the
    /// victims run out).
    fn evict_if_needed(&mut self, required: u64) -> (r: Result<(), DtnError>)
        requires
            old(self).used() + required <= u64::MAX,
            evicted(old(self).model(), old(self).capacity() as int, old(self).strategy(), required as int) is Some,
        ensures
            r is Ok,
            final(self).model() == evicted(old(self).model(), old(self).capacity() as int, old(self).strategy(), required as int).unwrap(),
            final(self).capacity() == old(self).capacity(),
            final(self).strategy() == old(self).strategy(),
    {
        if self.ledger.used + required <= self.total_capacity {
            return Ok(());
        }
        let to_free: u64 = (self.ledger.used + required) - self.total_capacity;
        let mut freed: u64 = 0;
        let victims = self.victim_ids();
        let ghost vk = victims@.map_values(|b: BundleId| b.0@);
        let ghost target = evicted(old(self).model(), old(self).capacity() as int, old(self).strategy(), required as int);
        let mut i: usize = 0;
        proof {
            assert(vk.skip(0) =~= vk);
        }
        while i < victims.len() && freed < to_free
            invariant
                i <= victims@.len(),
                vk == victims@.map_values(|b: BundleId| b.0@),
                target is Some,
                target == evict_run(self.model(), self.capacity() as int, vk.skip(i as int), to_free as int, freed as int),
                self.capacity() == old(self).capacity(),
                self.strategy() == old(self).strategy(),
            decreases victims@.len() - i,
        {
            let ghost st = self.model();
            proof {
                assert(vk.skip(i as int)[0] == victims@[i as int].0@);
                assert(vk.skip(i as int).drop_first() =~= vk.skip(i + 1));
            }
            let removed = self.remove(&victims[i]);
            proof {
                use_type_invariant(&*self);
            }
            let ghost fr = freed;
            let ghost v = vk.skip(i as int);
            proof {
                assert(v[0] == vk[i as int]);
                assert(removed == holds(st.0, v[0]));
            }
            if removed {
                proof {
                    let st2 = remove_key(st, v[0]);
                    assert(evict_run(st, self.capacity() as int, v, to_free as int, fr as int)
                        == (if st2.2 > self.capacity() || st2.3 >= u64::MAX { None } else {
                            evict_run((st2.0, st2.1, st2.2, st2.3 + 1), self.capacity() as int, v.drop_first(), to_free as int, self.capacity() - st2.2)
                        }));
                }
                freed = self.total_capacity - self.ledger.used;
                self.eviction_count = self.eviction_count + 1;
                proof {
                    let st2 = remove_key(st, v[0]);
                    assert(self.model() == (st2.0, st2.1, st2.2, st2.3 + 1));
                    assert(freed == self.capacity() - st2.2);
                    assert(v.drop_first() =~= vk.skip(i + 1));
                    assert(target == evict_run(self.model(), self.capacity() as int, vk.skip(i + 1), to_free as int, freed as int));
                }
            } else {
                proof {
                    assert(evict_run(st, self.capacity() as int, v, to_free as int, fr as int)
                        == evict_run(st, self.capacity() as int, v.drop_first(), to_free as int, fr as int));
                    assert(v.drop_first() =~= vk.skip(i + 1));
                    assert(self.model() == st);
                    assert(target == evict_run(self.model(), self.capacity() as int, vk.skip(i + 1), to_free as int, freed as int));
                }
            }
            i = i + 1;
        }
        Ok(())
    }

    /// Stores a bundle at time `now`, making room first when it does not
    /// fit; its digest is taken and it is recorded under its destination.
    /// A bundle with the identifier of a stored one replaces it: the
    /// replaced bundle's bytes and index record go.
    pub fn store_at(&mut self, bundle: PriorityBundle, now: i64) -> (r: Result<(), DtnError>)
        requires
            in_clock_range(now),
            old(self).used() + bundle.payload_size <= u64::MAX,
            evicted(old(self).model(), old(self).capacity() as int, old(self).strategy(), bundle.payload_size as int) is Some,
        ensures
            r is Ok,
            ({
                let e = evicted(old(self).model(), old(self).capacity() as int, old(self).strategy(), bundle.payload_size as int).unwrap();
                let p = lower_bound(e.0, bundle.id.0@);
                let replace = p < e.0.len() && key_of(e.0[p]) == bundle.id.0@;
                &&& placed(e.0, final(self).stored(), p, replace)
                &&& fresh(final(self).stored()[p], bundle, now)
                &&& final(self).index() == index_add(
                    if replace { index_drop(e.1, e.0[p].bundle.destination, bundle.id.0@) } else { e.1 },
                    bundle.destination,
                    bundle.id,
                )
                &&& final(self).used() == e.2 - (if replace { e.0[p].bundle.payload_size as int } else { 0 })
                    + bundle.payload_size
                &&& final(self).evictions() == e.3
            }),
            sorted_keys(final(self).stored()),
            final(self).capacity() == old(self).capacity(),
            final(self).strategy() == old(self).strategy(),
            old(self).strategy() == EvictionStrategy::LowestPriority ==> forall|k: int|
                0 <= k < old(self).stored().len()
                    && old(self).stored()[k].bundle.priority != BundlePriority::Maintenance
                    && old(self).stored()[k].bundle.priority != BundlePriority::ScienceBulk
                    && key_of(old(self).stored()[k]) != bundle.id.0@
                    ==> #[trigger] final(self).stored().contains(old(self).stored()[k]),
    {
        proof {
            use_type_invariant(&*self);
        }
        let ghost bid = bundle.id.0@;
        let bundle_size = bundle.payload_size;
        if self.ledger.used + bundle_size > self.total_capacity {
            let _ = self.evict_if_needed(bundle_size);
        }
        proof {
            use_type_invariant(&*self);
            if old(self).used() + bundle_size > old(self).capacity() {
                lemma_evict_run_used(old(self).model(), old(self).capacity() as int,
                    victims(old(self).stored(), old(self).strategy()),
                    old(self).used() + bundle_size - old(self).capacity(), 0);
            }
        }
        let digest = sha3_256(bundle.payload.as_slice());
        let integrity_hash = hex_encode(digest.as_slice());
        let id = bundle.id.clone();
        let dest = bundle.destination.clone();
        let stored = StoredBundle {
            bundle,
            stored_at: now,
            access_count: 0,
            last_accessed: now,
            retransmission_count: 0,
            integrity_hash,
        };
        let ghost e = self.model();
        let ghost sb = stored;
        let p = self.find_place(id.0.as_str());
        proof {
            lemma_sorted_place(self.ledger.bundles@, id.0@, p as int);
        }
        let replace = p < self.ledger.bundles.len() && str_eq(self.ledger.bundles[p].bundle.id.0.as_str(), id.0.as_str());
        let mut used: u64 = self.ledger.used;
        if replace {
            let old_dest = self.ledger.bundles[p].bundle.destination.clone();
            let old_size = self.ledger.bundles[p].bundle.payload_size;
            proof {
                lemma_total_at(self.ledger.bundles@, p as int);
                lemma_total_nonneg(self.ledger.bundles@.remove(p as int));
            }
            self.index_forget(&old_dest, id.0.as_str());
            used = used - old_size;
        }
        self.index_record(dest, id);
        used = used + bundle_size;
        self.put(stored, used);
        proof {
            let ghost o = old(self).model();
            let ghost ev = evicted(o, old(self).capacity() as int, old(self).strategy(), bundle_size as int).unwrap();
            let ghost q = lower_bound(ev.0, bid);
            let ghost rep = q < ev.0.len() && key_of(ev.0[q]) == bid;
            if old(self).strategy() == EvictionStrategy::LowestPriority {
                assert forall|k: int|
                    0 <= k < old(self).stored().len()
                        && old(self).stored()[k].bundle.priority != BundlePriority::Maintenance
                        && old(self).stored()[k].bundle.priority != BundlePriority::ScienceBulk
                        && key_of(old(self).stored()[k]) != bid
                        implies #[trigger] self.stored().contains(old(self).stored()[k]) by {
                    let b = old(self).stored()[k];
                    assert(o.0.contains(b));
                    lemma_lowest_priority_spares_higher(o, old(self).capacity() as int, bundle_size as int, b);
                    let m = choose|m: int| 0 <= m < ev.0.len() && ev.0[m] == b;
                    if rep {
                        assert(m != q);
                        assert(self.stored()[m] == b);
                    } else if m < q {
                        assert(self.stored()[m] == b);
                    } else {
                        assert(self.stored()[m + 1] == b);
                    }
                }
            }
        }
        Ok(())
    }

    /// Puts a bundle in its place in the identifier order, in place of a
    /// bundle with the same identifier if there is one.
    fn put(&mut self, stored: StoredBundle, used: u64)
        requires
            digest_ok(stored),
            in_clock_range(stored.stored_at),
            ({
                let p = lower_bound(old(self).stored(), key_of(stored));
                let replace = p < old(self).stored().len() && key_of(old(self).stored()[p]) == key_of(stored);
                used == old(self).used() - (if replace { old(self).stored()[p].bundle.payload_size as int } else { 0 })
                    + stored.bundle.payload_size
            }),
        ensures
            ({
                let p = lower_bound(old(self).stored(), key_of(stored));
                let replace = p < old(self).stored().len() && key_of(old(self).stored()[p]) == key_of(stored);
                &&& placed(old(self).stored(), final(self).stored(), p, replace)
                &&& final(self).stored()[p] == stored
            }),
            final(self).index() == old(self).index(),
            final(self).used() == used,
            final(self).evictions() == old(self).evictions(),
            final(self).capacity() == old(self).capacity(),
            final(self).strategy() == old(self).strategy(),
    {
        proof {
            use_type_invariant(&*self);
        }
        let p = self.find_place(stored.bundle.id.0.as_str());
        proof {
            lemma_sorted_place(self.ledger.bundles@, key_of(stored), p as int);
        }
        let replace = p < self.ledger.bundles.len() && str_eq(self.ledger.bundles[p].bundle.id.0.as_str(), stored.bundle.id.0.as_str());
        let ghost sb = stored;
        let mut led = Ledger { bundles: Vec::new(), used: 0 };
        std::mem::swap(&mut led, &mut self.ledger);
        let Ledger { bundles: mut st, used: _ } = led;
        let ghost whole = st@;
        if replace {
            st.set(p, stored);
        } else {
            st.insert(p, stored);
        }
        proof {
            assert(st@[p as int] == sb);
            if replace {
                assert(st@ =~= whole.update(p as int, sb));
                lemma_total_at(whole, p as int);
            } else {
                assert(st@ =~= whole.insert(p as int, sb));
                lemma_total_insert(whole, p as int, sb);
            }
            assert forall|i: int, j: int| 0 <= i < j < st@.len() implies text_lt(#[trigger] key_of(st@[i]), #[trigger] key_of(st@[j])) by {
                if replace {
                    if i != p {
                        assert(st@[i] == whole[i]);
                    }
                    if j != p {
                        assert(st@[j] == whole[j]);
                    }
                } else {
                    if i < p {
                        assert(st@[i] == whole[i]);
                    } else if i > p {
                        assert(st@[i] == whole[i - 1]);
                    }
                    if j < p {
                        assert(st@[j] == whole[j]);
                    } else if j > p {
                        assert(st@[j] == whole[j - 1]);
                    }
                }
            }
            assert forall|k: int| 0 <= k < st@.len() implies digest_ok(#[trigger] st@[k]) && in_clock_range(st@[k].stored_at) by {
                if k != p {
                    if replace || k < p {
                        assert(st@[k] == whole[k]);
                    } else {
                        assert(st@[k] == whole[k - 1]);
                    }
                }
            }
        }
        self.ledger = Ledger { bundles: st, used };
    }

    /// Stores a bundle now.
    pub fn store(&mut self, bundle: PriorityBundle) -> (r: Result<(), DtnError>)
        requires
            old(self).used() + bundle.payload_size <= u64::MAX,
            evicted(old(self).model(), old(self).capacity() as int, old(self).strategy(), bundle.payload_size as int) is Some,
        ensures
            r is Ok,
            exists|now: i64| in_clock_range(now) && ({
                let e = evicted(old(self).model(), old(self).capacity() as int, old(self).strategy(), bundle.payload_size as int).unwrap();
                let p = lower_bound(e.0, bundle.id.0@);
                let replace = p < e.0.len() && key_of(e.0[p]) == bundle.id.0@;
                &&& placed(e.0, final(self).stored(), p, replace)
                &&& fresh(final(self).stored()[p], bundle, now)
                &&& final(self).index() == index_add(
                    if replace { index_drop(e.1, e.0[p].bundle.destination, bundle.id.0@) } else { e.1 },
                    bundle.destination,
                    bundle.id,
                )
                &&& final(self).used() == e.2 - (if replace { e.0[p].bundle.payload_size as int } else { 0 })
                    + bundle.payload_size
                &&& final(self).evictions() == e.3
            }),
            sorted_keys(final(self).stored()),
            final(self).capacity() == old(self).capacity(),
            final(self).strategy() == old(self).strategy(),
            old(self).strategy() == EvictionStrategy::LowestPriority ==> forall|k: int|
                0 <= k < old(self).stored().len()
                    && old(self).stored()[k].bundle.priority != BundlePriority::Maintenance
                    && old(self).stored()[k].bundle.priority != BundlePriority::ScienceBulk
                    && key_of(old(self).stored()[k]) != bundle.id.0@
                    ==> #[trigger] final(self).stored().contains(old(self).stored()[k]),
    {
        let now = now_millis();
        self.store_at(bundle, now)
    }

    /// Looks a bundle up by identifier at time `now`, counting the access.
    pub fn retrieve_at(&mut self, id: &BundleId, now: i64) -> (r: Option<&PriorityBundle>)
        requires
            forall|k: int| 0 <= k < old(self).stored().len() && key_of(old(self).stored()[k]) == id.0@
                ==> #[trigger] old(self).stored()[k].access_count < u32::MAX,
        ensures
            r is Some <==> holds(old(self).stored(), id.0@),
            ({
                let p = lower_bound(old(self).stored(), id.0@);
                r matches Some(b) ==> {
                    &&& *b == old(self).stored()[p].bundle
                    &&& final(self).stored() == old(self).stored().update(p, touched(old(self).stored()[p], now))
                }
            }),
            r is None ==> final(self).stored() == old(self).stored(),
            final(self).index() == old(self).index(),
            final(self).used() == old(self).used(),
            final(self).evictions() == old(self).evictions(),
            final(self).capacity() == old(self).capacity(),
            final(self).strategy() == old(self).strategy(),
    {
        proof {
            use_type_invariant(&*self);
        }
        let p = self.find_place(id.0.as_str());
        proof {
            lemma_sorted_place(self.ledger.bundles@, id.0@, p as int);
        }
        if p < self.ledger.bundles.len() && str_eq(self.ledger.bundles[p].bundle.id.0.as_str(), id.0.as_str()) {
            let mut led = Ledger { bundles: Vec::new(), used: 0 };
            std::mem::swap(&mut led, &mut self.ledger);
            let Ledger { bundles: mut st, used } = led;
            let ghost whole = st@;
            let mut sb = st.remove(p);
            sb.access_count = sb.access_count + 1;
            sb.last_accessed = now;
            st.insert(p, sb);
            proof {
                assert(st@ =~= whole.update(p as int, touched(whole[p as int], now)));
                lemma_total_at(whole, p as int);
                assert(total_payload(st@) == total_payload(whole));
                assert forall|i: int, j: int| 0 <= i < j < st@.len() implies text_lt(#[trigger] key_of(st@[i]), #[trigger] key_of(st@[j])) by {
                    assert(key_of(st@[i]) == key_of(whole[i]));
                    assert(key_of(st@[j]) == key_of(whole[j]));
                }
                assert forall|k: int| 0 <= k < st@.len() implies digest_ok(#[trigger] st@[k]) && in_clock_range(st@[k].stored_at) by {
                    assert(st@[k].bundle == whole[k].bundle);
                    assert(st@[k].integrity_hash == whole[k].integrity_hash);
                    assert(st@[k].stored_at == whole[k].stored_at);
                }
            }
            self.ledger = Ledger { bundles: st, used };
            Some(&self.ledger.bundles[p].bundle)
        } else {
            None
        }
    }

    /// Looks a bundle up by identifier now, counting the access.
    pub fn retrieve(&mut self, id: &BundleId) -> (r: Option<&PriorityBundle>)
        requires
            forall|k: int| 0 <= k < old(self).stored().len() && key_of(old(self).stored()[k]) == id.0@
                ==> #[trigger] old(self).stored()[k].access_count < u32::MAX,
        ensures
            r is Some <==> holds(old(self).stored(), id.0@),
            ({
                let p = lower_bound(old(self).stored(), id.0@);
                r matches Some(b) ==> {
                    &&& *b == old(self).stored()[p].bundle
                    &&& exists|now: i64| in_clock_range(now)
                        && final(self).stored() == old(self).stored().update(p, touched(old(self).stored()[p], now))
                }
            }),
            r is None ==> final(self).stored() == old(self).stored(),
            final(self).index() == old(self).index(),
            final(self).used() == old(self).used(),
            final(self).evictions() == old(self).evictions(),
            final(self).capacity() == old(self).capacity(),
            final(self).strategy() == old(self).strategy(),
    {
        let now = now_millis();
        self.retrieve_at(id, now)
    }

    /// The stored bundles recorded for a destination, in storage order
    /// (records whose bundle is gone are skipped).
    pub fn retrieve_by_destination(&self, dest: &BundleDestination) -> (r: Vec<&PriorityBundle>)
        ensures
            r@.len() == bundles_of(self.stored(), ids_for(self.index(), *dest)).len(),
            forall|k: int| 0 <= k < r@.len() ==> *r@[k] == #[trigger] bundles_of(self.stored(), ids_for(self.index(), *dest))[k],
    {
        proof {
            use_type_invariant(self);
        }
        let e = self.find_entry(dest);
        let mut r: Vec<&PriorityBundle> = Vec::new();
        if e >= self.by_destination.len() {
            return r;
        }
        let ids = &self.by_destination[e].1;
        let ghost want = ids_for(self.index(), *dest);
        proof {
            assert(want == ids@);
        }
        let mut i: usize = 0;
        while i < ids.len()
            invariant
                i <= ids@.len(),
                want == ids@,
                sorted_keys(self.ledger.bundles@),
                r@.len() == bundles_of(self.stored(), want.take(i as int)).len(),
                forall|k: int| 0 <= k < r@.len() ==> *r@[k] == #[trigger] bundles_of(self.stored(), want.take(i as int))[k],
            decreases ids@.len() - i,
        {
            proof {
                assert(want.take(i + 1).drop_last() =~= want.take(i as int));
                assert(want.take(i + 1).last() == ids@[i as int]);
            }
            let p = self.find_place(ids[i].0.as_str());
            proof {
                lemma_sorted_place(self.ledger.bundles@, ids@[i as int].0@, p as int);
            }
            if p < self.ledger.bundles.len() && str_eq(self.ledger.bundles[p].bundle.id.0.as_str(), ids[i].0.as_str()) {
                r.push(&self.ledger.bundles[p].bundle);
            }
            i = i + 1;
        }
        proof {
            assert(want.take(ids@.len() as int) =~= want);
        }
        r
    }

    /// Counts one more retransmission of a stored bundle.
    pub fn mark_retransmission(&mut self, id: &BundleId)
        requires
            forall|k: int| 0 <= k < old(self).stored().len() && key_of(old(self).stored()[k]) == id.0@
                ==> #[trigger] old(self).stored()[k].retransmission_count < u32::MAX,
        ensures
            ({
                let p = lower_bound(old(self).stored(), id.0@);
                if holds(old(self).stored(), id.0@) {
                    final(self).stored() == old(self).stored().update(p, StoredBundle {
                        retransmission_count: (old(self).stored()[p].retransmission_count + 1) as u32,
                        ..old(self).stored()[p]
                    })
                } else {
                    final(self).stored() == old(self).stored()
                }
            }),
            final(self).index() == old(self).index(),
            final(self).used() == old(self).used(),
            final(self).evictions() == old(self).evictions(),
            final(self).capacity() == old(self).capacity(),
            final(self).strategy() == old(self).strategy(),
    {
        proof {
            use_type_invariant(&*self);
        }
        let p = self.find_place(id.0.as_str());
        proof {
            lemma_sorted_place(self.ledger.bundles@, id.0@, p as int);
        }
        if p < self.ledger.bundles.len() && str_eq(self.ledger.bundles[p].bundle.id.0.as_str(), id.0.as_str()) {
            let mut led = Ledger { bundles: Vec::new(), used: 0 };
            std::mem::swap(&mut led, &mut self.ledger);
            let Ledger { bundles: mut st, used } = led;
            let ghost whole = st@;
            let mut sb = st.remove(p);
            sb.retransmission_count = sb.retransmission_count + 1;
            st.insert(p, sb);
            proof {
                assert forall|i: int, j: int| 0 <= i < j < st@.len() implies text_lt(#[trigger] key_of(st@[i]), #[trigger] key_of(st@[j])) by {
                    assert(key_of(st@[i]) == key_of(whole[i]));
                    assert(key_of(st@[j]) == key_of(whole[j]));
                }
                assert forall|k: int| 0 <= k < st@.len() implies digest_ok(#[trigger] st@[k]) && in_clock_range(st@[k].stored_at) by {
                    assert(st@[k].bundle == whole[k].bundle);
                    assert(st@[k].integrity_hash == whole[k].integrity_hash);
                    assert(st@[k].stored_at == whole[k].stored_at);
                }
            }
            proof {
                assert(st@ =~= whole.update(p as int, StoredBundle {
                    retransmission_count: (whole[p as int].retransmission_count + 1) as u32,
                    ..whole[p as int]
                }));
                lemma_total_at(whole, p as int);
                assert(total_payload(st@) == total_payload(whole));
            }
            self.ledger = Ledger { bundles: st, used };
        }
    }

    /// Counts the stored bundles whose payload no longer matches the
    /// digest taken on storage. The buffer never alters a payload, so the
    /// count is zero.
    pub fn verify_integrity(&self) -> (failures: usize)
        ensures
            failures == 0,
    {
        proof {
            use_type_invariant(self);
        }
        let mut failures: usize = 0;
        let mut i: usize = 0;
        while i < self.ledger.bundles.len()
            invariant
                i <= self.ledger.bundles@.len(),
                failures == 0,
                forall|k: int| 0 <= k < self.ledger.bundles@.len() ==> digest_ok(#[trigger] self.ledger.bundles@[k]),
            decreases self.ledger.bundles@.len() - i,
        {
            let stored = &self.ledger.bundles[i];
            let digest = sha3_256(stored.bundle.payload.as_slice());
            let computed = hex_encode(digest.as_slice());
            if !str_eq(computed.as_str(), stored.integrity_hash.as_str()) {
                failures = failures + 1;
            }
            i = i + 1;
        }
        failures
    }

    /// Drops the bundles expired at `now` (their expiry before `now`);
    /// returns how many.
    pub fn cleanup_expired_at(&mut self, now: i64) -> (count: usize)
        ensures
            count == expired_keys(old(self).stored(), now).len(),
            final(self).model() == remove_all(old(self).model(), expired_keys(old(self).stored(), now)),
            final(self).stored() == unexpired(old(self).stored(), now),
            final(self).capacity() == old(self).capacity(),
            final(self).strategy() == old(self).strategy(),
    {
        proof {
            use_type_invariant(&*self);
            lemma_cleanup_keeps_unexpired(self.model(), now);
        }
        let mut expired: Vec<BundleId> = Vec::new();
        let mut i: usize = 0;
        while i < self.ledger.bundles.len()
            invariant
                i <= self.ledger.bundles@.len(),
                expired@.len() <= i,
                expired@.map_values(|b: BundleId| b.0@) == expired_keys(self.ledger.bundles@.take(i as int), now),
            decreases self.ledger.bundles@.len() - i,
        {
            proof {
                assert(self.ledger.bundles@.take(i + 1).drop_last() =~= self.ledger.bundles@.take(i as int));
                assert(self.ledger.bundles@.take(i + 1).last() == self.ledger.bundles@[i as int]);
            }
            if self.ledger.bundles[i].bundle.expires_at < now {
                let id = self.ledger.bundles[i].bundle.id.clone();
                let ghost before = expired@;
                expired.push(id);
                proof {
                    assert(expired@.map_values(|b: BundleId| b.0@) =~= before.map_values(|b: BundleId| b.0@).push(id.0@));
                }
            }
            i = i + 1;
        }
        proof {
            assert(self.ledger.bundles@.take(self.ledger.bundles@.len() as int) =~= self.ledger.bundles@);
        }
        let ghost ek = expired@.map_values(|b: BundleId| b.0@);
        let ghost target = remove_all(old(self).model(), ek);
        let count = expired.len();
        let mut j: usize = 0;
        proof {
            assert(ek.skip(0) =~= ek);
        }
        while j < expired.len()
            invariant
                j <= expired@.len(),
                ek == expired@.map_values(|b: BundleId| b.0@),
                target == remove_all(self.model(), ek.skip(j as int)),
                self.capacity() == old(self).capacity(),
                self.strategy() == old(self).strategy(),
            decreases expired@.len() - j,
        {
            proof {
                assert(ek.skip(j as int)[0] == expired@[j as int].0@);
                assert(ek.skip(j as int).drop_first() =~= ek.skip(j + 1));
            }
            let _ = self.remove(&expired[j]);
            j = j + 1;
        }
        count
    }

    /// Drops the bundles expired now; returns how many.
    pub fn cleanup_expired(&mut self) -> (count: usize)
        ensures
            exists|now: i64| in_clock_range(now) && count == expired_keys(old(self).stored(), now).len()
                && final(self).model() == remove_all(old(self).model(), expired_keys(old(self).stored(), now))
                && final(self).stored() == unexpired(old(self).stored(), now),
            final(self).capacity() == old(self).capacity(),
            final(self).strategy() == old(self).strategy(),
    {
        let now = now_millis();
        self.cleanup_expired_at(now)
    }

    /// The buffer's summary at time `now`.
    pub fn state_at(&self, now: i64) -> (st: StorageState)
        requires
            in_clock_range(now),
        ensures
            st.total_capacity_bytes == self.capacity(),
            st.used_bytes == self.used(),
            st.used_bytes == total_payload(self.stored()),
            st.bundle_count == self.stored().len(),
            st.oldest_bundle_age_hours == oldest_hours(self.stored(), now),
            st.newest_bundle_age_seconds == newest_seconds(self.stored(), now),
            st.eviction_count == self.evictions(),
            st.integrity_failures == 0,
    {
        proof {
            use_type_invariant(self);
        }
        let s = &self.ledger.bundles;
        let mut oldest: i64 = 0;
        let mut newest: i64 = 0;
        let mut i: usize = 0;
        while i < s.len()
            invariant
                i <= s@.len(),
                in_clock_range(now),
                forall|k: int| 0 <= k < s@.len() ==> in_clock_range(#[trigger] s@[k].stored_at),
                oldest == oldest_hours(s@.take(i as int), now),
                newest == newest_seconds(s@.take(i as int), now),
            decreases s@.len() - i,
        {
            proof {
                assert(s@.take(i + 1).drop_last() =~= s@.take(i as int));
                assert(s@.take(i + 1).last() == s@[i as int]);
            }
            let secs = whole_seconds((now as i128) - (s[i].stored_at as i128));
            let hours: i128 = if secs >= 0 { secs / 3600 } else { -((-secs) / 3600) };
            if hours as i64 > oldest {
                oldest = hours as i64;
            }
            if i == 0 || (secs as i64) < newest {
                newest = secs as i64;
            }
            i = i + 1;
        }
        proof {
            assert(s@.take(s@.len() as int) =~= s@);
        }
        StorageState {
            total_capacity_bytes: self.total_capacity,
            used_bytes: self.ledger.used,
            bundle_count: s.len(),
            oldest_bundle_age_hours: oldest,
            newest_bundle_age_seconds: newest,
            eviction_count: self.eviction_count,
            integrity_failures: 0,
        }
    }

    /// The buffer's summary now.
    pub fn state(&self) -> (st: StorageState)
        ensures
            st.total_capacity_bytes == self.capacity(),
            st.used_bytes == self.used(),
            st.used_bytes == total_payload(self.stored()),
            st.bundle_count == self.stored().len(),
            exists|now: i64| in_clock_range(now) && st.oldest_bundle_age_hours == oldest_hours(self.stored(), now)
                && st.newest_bundle_age_seconds == newest_seconds(self.stored(), now),
            st.eviction_count == self.evictions(),
            st.integrity_failures == 0,
    {
        let now = now_millis();
        self.state_at(now)
    }
}

/// The usage key of a stored bundle.
fn usage_key_of(b: &StoredBundle, by_count: bool) -> (k: i64)
    ensures
        k == usage_key(*b, by_count),
{
    if by_count {
        b.access_count as i64
    } else {
        b.last_accessed
    }
}

} // verus!
