//! The bloom filter: construction, insertion, membership queries, and the
//! laws that tie them together.
use crate::bits::{bits_filled, bits_get, bits_len, bits_of, bits_set};
use crate::hasher::BloomHasher;
use crate::params::{hash_rounds_for, lemma_hash_rounds_at_least_one, optimal_hash_functions};
use bit_vec::BitVec;
use vstd::prelude::*;

verus! {

/// The position in an array of `m` bits that hash round `seed` picks for
/// `bytes`.
pub open spec fn slot<T: BloomHasher>(h: T, m: nat, seed: u32, bytes: Seq<u8>) -> int {
    (h.spec_hash(seed, bytes) as int) % (m as int)
}

/// Whether one of the rounds `0..rounds` picks position `i` for `bytes`.
pub open spec fn picked<T: BloomHasher>(
    h: T,
    rounds: u32,
    m: nat,
    bytes: Seq<u8>,
    i: int,
) -> bool {
    exists|seed: u32| seed < rounds && #[trigger] slot(h, m, seed, bytes) == i
}

/// `bits` after the positions of rounds `0..rounds` for `bytes` are set.
pub open spec fn marked<T: BloomHasher>(
    h: T,
    rounds: u32,
    bits: Seq<bool>,
    bytes: Seq<u8>,
) -> Seq<bool> {
    Seq::new(bits.len(), |i: int| bits[i] || picked(h, rounds, bits.len(), bytes, i))
}

/// `bits` after each of `items` is marked, in order.
pub open spec fn marked_all<T: BloomHasher>(
    h: T,
    k: u32,
    bits: Seq<bool>,
    items: Seq<Seq<u8>>,
) -> Seq<bool>
    decreases items.len(),
{
    if items.len() == 0 {
        bits
    } else {
        marked(h, k, marked_all(h, k, bits, items.drop_last()), items.last())
    }
}

/// Whether every position of rounds `0..k` for `bytes` is set in `bits`.
pub open spec fn all_set<T: BloomHasher>(h: T, k: u32, bits: Seq<bool>, bytes: Seq<u8>) -> bool {
    forall|seed: u32| seed < k ==> #[trigger] bits[slot(h, bits.len(), seed, bytes)]
}

/// The byte sequences a slice of vectors holds.
pub open spec fn views(items: Seq<Vec<u8>>) -> Seq<Seq<u8>> {
    items.map_values(|v: Vec<u8>| v@)
}

/// Marking keeps the length of the array.
pub proof fn lemma_marked_all_len<T: BloomHasher>(h: T, k: u32, bits: Seq<bool>, items: Seq<Seq<u8>>)
    ensures
        marked_all(h, k, bits, items).len() == bits.len(),
    decreases items.len(),
{
    if items.len() > 0 {
        lemma_marked_all_len(h, k, bits, items.drop_last());
    }
}

/// Inserting never changes the length of the array.
pub proof fn lemma_marked_len<T: BloomHasher>(h: T, k: u32, bits: Seq<bool>, bytes: Seq<u8>)
    ensures
        marked(h, k, bits, bytes).len() == bits.len(),
{
}

/// Bytes whose positions are all set stay so through any further insertions.
pub proof fn lemma_present_stays_present<T: BloomHasher>(
    h: T,
    k: u32,
    bits: Seq<bool>,
    bytes: Seq<u8>,
    items: Seq<Seq<u8>>,
)
    requires
        bits.len() > 0,
        all_set(h, k, bits, bytes),
    ensures
        all_set(h, k, marked_all(h, k, bits, items), bytes),
    decreases items.len(),
{
    if items.len() > 0 {
        let rest = items.drop_last();
        lemma_present_stays_present(h, k, bits, bytes, rest);
        lemma_marked_all_len(h, k, bits, rest);
        lemma_all_set_kept(h, k, marked_all(h, k, bits, rest), bytes, items.last());
    }
}

/// Bits only go from false to true: every bit set before an insertion is
/// still set after it.
pub proof fn lemma_marked_keeps_bits<T: BloomHasher>(
    h: T,
    k: u32,
    bits: Seq<bool>,
    bytes: Seq<u8>,
    i: int,
)
    requires
        0 <= i < bits.len(),
        bits[i],
    ensures
        marked(h, k, bits, bytes)[i],
{
}

/// Right after bytes are inserted, every one of their positions is set.
pub proof fn lemma_marked_sets_all<T: BloomHasher>(h: T, k: u32, bits: Seq<bool>, bytes: Seq<u8>)
    requires
        bits.len() > 0,
    ensures
        all_set(h, k, marked(h, k, bits, bytes), bytes),
{
    let after = marked(h, k, bits, bytes);
    assert forall|seed: u32| seed < k implies #[trigger] after[slot(h, after.len(), seed, bytes)] by {
        let i = slot(h, bits.len(), seed, bytes);
        assert(picked(h, k, bits.len(), bytes, i));
    }
}

/// A later insertion never clears the positions of earlier bytes.
proof fn lemma_all_set_kept<T: BloomHasher>(h: T, k: u32, bits: Seq<bool>, bytes: Seq<u8>, other: Seq<u8>)
    requires
        bits.len() > 0,
        all_set(h, k, bits, bytes),
    ensures
        all_set(h, k, marked(h, k, bits, other), bytes),
{
    let after = marked(h, k, bits, other);
    assert forall|seed: u32| seed < k implies #[trigger] after[slot(h, after.len(), seed, bytes)] by {
        assert(bits[slot(h, bits.len(), seed, bytes)]);
    }
}

/// No false negatives: after a filter takes a sequence of items, each of
/// them is reported as present.
pub proof fn lemma_items_present<T: BloomHasher>(
    h: T,
    k: u32,
    bits: Seq<bool>,
    items: Seq<Seq<u8>>,
    j: int,
)
    requires
        bits.len() > 0,
        0 <= j < items.len(),
    ensures
        all_set(h, k, marked_all(h, k, bits, items), items[j]),
    decreases items.len(),
{
    let rest = items.drop_last();
    lemma_marked_all_len(h, k, bits, rest);
    if j == items.len() - 1 {
        lemma_marked_sets_all(h, k, marked_all(h, k, bits, rest), items[j]);
    } else {
        lemma_items_present(h, k, bits, rest, j);
        lemma_all_set_kept(h, k, marked_all(h, k, bits, rest), items[j], items.last());
    }
}

/// The order of two insertions has no effect on the bit array.
pub proof fn lemma_insert_order<T: BloomHasher>(h: T, k: u32, bits: Seq<bool>, a: Seq<u8>, b: Seq<u8>)
    ensures
        marked(h, k, marked(h, k, bits, a), b) == marked(h, k, marked(h, k, bits, b), a),
{
    assert(marked(h, k, marked(h, k, bits, a), b) =~= marked(h, k, marked(h, k, bits, b), a));
}

/// The derived parameters depend on the item count and the array size
/// alone: two filters that `optimal` built from the same counts, with any
/// two hashers, have the same array length and the same number of rounds,
/// and that number is at least 1.
pub proof fn lemma_optimal_independent_of_hasher<T: BloomHasher, U: BloomHasher>(
    f: BloomFilter<T>,
    g: BloomFilter<U>,
    max_elements: u64,
    array_size: u64,
)
    requires
        f.spec_k() as nat == hash_rounds_for(array_size as nat, max_elements as nat),
        f.spec_bits().len() == array_size,
        g.spec_k() as nat == hash_rounds_for(array_size as nat, max_elements as nat),
        g.spec_bits().len() == array_size,
    ensures
        f.spec_k() == g.spec_k(),
        f.spec_bits().len() == g.spec_bits().len(),
        f.spec_k() >= 1,
{
    lemma_hash_rounds_at_least_one(array_size as nat, max_elements as nat);
}

/// Why a filter could not be built from derived parameters.
#[derive(Debug, PartialEq, Eq, Structural)]
pub enum BloomError {
    /// The expected number of items is zero, so no hash count can be derived.
    ZeroElements,
    /// The bit array would hold no bits.
    ZeroSize,
}

/// A bloom filter over byte sequences, hashing with `T`.
///
/// It never forgets an item: once inserted, `contains` on the same bytes is
/// true for the rest of its life. Items cannot be removed.
pub struct BloomFilter<T> {
    hasher: T,
    k: u32,
    bit_vec: BitVec,
    insert_count: u64,
}

impl<T: BloomHasher> BloomFilter<T> {
    /// The hash capability, fixed at construction.
    pub closed spec fn spec_hasher(&self) -> T {
        self.hasher
    }

    /// The number of hash rounds per operation.
    pub closed spec fn spec_k(&self) -> u32 {
        self.k
    }

    /// The bit array.
    pub closed spec fn spec_bits(&self) -> Seq<bool> {
        bits_of(self.bit_vec)
    }

    /// The number of `insert` calls so far, duplicates included.
    pub closed spec fn spec_count(&self) -> u64 {
        self.insert_count
    }

    /// The array holds at least one bit and each operation runs at least one
    /// hash round.
    pub open spec fn wf(&self) -> bool {
        self.spec_bits().len() > 0 && self.spec_k() >= 1
    }

    /// Whether `contains(bytes)` answers true.
    pub open spec fn spec_contains(&self, bytes: Seq<u8>) -> bool {
        all_set(self.spec_hasher(), self.spec_k(), self.spec_bits(), bytes)
    }

    /// No false negatives: a filter that took `items` (through `insert_all`)
    /// answers `contains` with true for each of them.
    pub proof fn lemma_no_false_negatives(before: Self, after: Self, items: Seq<Seq<u8>>, j: int)
        requires
            before.wf(),
            after.spec_hasher() == before.spec_hasher(),
            after.spec_k() == before.spec_k(),
            after.spec_bits() == marked_all(
                before.spec_hasher(),
                before.spec_k(),
                before.spec_bits(),
                items,
            ),
            0 <= j < items.len(),
        ensures
            after.spec_contains(items[j]),
    {
        lemma_items_present(before.spec_hasher(), before.spec_k(), before.spec_bits(), items, j);
    }

    /// Once `insert(bytes)` has run, `contains(bytes)` answers true.
    pub proof fn lemma_inserted_is_present(before: Self, after: Self, bytes: Seq<u8>)
        requires
            before.wf(),
            after.spec_hasher() == before.spec_hasher(),
            after.spec_k() == before.spec_k(),
            after.spec_bits() == marked(
                before.spec_hasher(),
                before.spec_k(),
                before.spec_bits(),
                bytes,
            ),
        ensures
            after.spec_contains(bytes),
    {
        lemma_marked_sets_all(before.spec_hasher(), before.spec_k(), before.spec_bits(), bytes);
    }

    /// No false negatives across later insertions: once `contains(bytes)` is
    /// true, it stays true whatever is inserted afterwards (through `insert`
    /// or `insert_all`). This holds for every hasher, since each computes a
    /// function of the seed and the bytes alone.
    pub proof fn lemma_stays_present(before: Self, after: Self, bytes: Seq<u8>, items: Seq<Seq<u8>>)
        requires
            before.wf(),
            before.spec_contains(bytes),
            after.spec_hasher() == before.spec_hasher(),
            after.spec_k() == before.spec_k(),
            after.spec_bits() == marked_all(
                before.spec_hasher(),
                before.spec_k(),
                before.spec_bits(),
                items,
            ),
        ensures
            after.spec_contains(bytes),
    {
        lemma_marked_all_len(before.spec_hasher(), before.spec_k(), before.spec_bits(), items);
        lemma_present_stays_present(
            before.spec_hasher(),
            before.spec_k(),
            before.spec_bits(),
            bytes,
            items,
        );
    }

    /// Insertions never change the array length or the number of hash
    /// rounds: a filter that took `items` after `before` has the same shape.
    pub proof fn lemma_shape_fixed(before: Self, after: Self, items: Seq<Seq<u8>>)
        requires
            before.wf(),
            after.spec_hasher() == before.spec_hasher(),
            after.spec_k() == before.spec_k(),
            after.spec_bits() == marked_all(
                before.spec_hasher(),
                before.spec_k(),
                before.spec_bits(),
                items,
            ),
        ensures
            after.wf(),
            after.spec_bits().len() == before.spec_bits().len(),
            after.spec_k() == before.spec_k(),
    {
        lemma_marked_all_len(before.spec_hasher(), before.spec_k(), before.spec_bits(), items);
    }

    /// Create a new `BloomFilter` given a `hasher`, the number of hash
    /// functions to use, and the size of the underlying bit array; all bits
    /// start cleared.
    pub fn new(hasher: T, k: u32, array_size: u64) -> (r: Self)
        requires
            k >= 1,
            array_size >= 1,
            array_size <= usize::MAX,
        ensures
            r.wf(),
            r.spec_hasher() == hasher,
            r.spec_k() == k,
            r.spec_bits() == Seq::new(array_size as nat, |i: int| false),
            r.spec_count() == 0,
    {
        BloomFilter { hasher, k, bit_vec: bits_filled(array_size as usize, false), insert_count: 0 }
    }

    /// Create a `BloomFilter` of `array_size` bits for `max_elements` items,
    /// with the number of hash rounds that minimises its false-positive rate
    /// (`optimal_hash_functions`).
    ///
    /// Fails with `ZeroElements` when `max_elements` is zero, and otherwise
    /// with `ZeroSize` when `array_size` is zero.
    pub fn optimal(hasher: T, max_elements: u64, array_size: u64) -> (r: Result<Self, BloomError>)
        requires
            array_size <= usize::MAX,
        ensures
            max_elements == 0 ==> r == Err::<Self, BloomError>(BloomError::ZeroElements),
            max_elements > 0 && array_size == 0 ==> r == Err::<Self, BloomError>(
                BloomError::ZeroSize,
            ),
            max_elements > 0 && array_size > 0 ==> r is Ok,
            r matches Ok(f) ==> {
                &&& f.wf()
                &&& f.spec_hasher() == hasher
                &&& f.spec_k() as nat == hash_rounds_for(array_size as nat, max_elements as nat)
                &&& f.spec_bits() == Seq::new(array_size as nat, |i: int| false)
                &&& f.spec_count() == 0
            },
    {
        if max_elements == 0 {
            return Err(BloomError::ZeroElements);
        }
        if array_size == 0 {
            return Err(BloomError::ZeroSize);
        }
        let k = optimal_hash_functions(array_size, max_elements);
        Ok(Self::new(hasher, k, array_size))
    }

    /// Insert a slice of bytes into the `BloomFilter`: the position of each
    /// hash round is set, and the insert count grows by one.
    pub fn insert(&mut self, bytes: &[u8])
        requires
            old(self).wf(),
            old(self).spec_count() < u64::MAX,
            bytes@.len() <= u32::MAX,
        ensures
            final(self).wf(),
            final(self).spec_hasher() == old(self).spec_hasher(),
            final(self).spec_k() == old(self).spec_k(),
            final(self).spec_bits() == marked(
                old(self).spec_hasher(),
                old(self).spec_k(),
                old(self).spec_bits(),
                bytes@,
            ),
            final(self).spec_count() == old(self).spec_count() + 1,
    {
        let ghost h = self.hasher;
        let ghost start = bits_of(self.bit_vec);
        let m = bits_len(&self.bit_vec);
        let mut seed: u32 = 0;
        while seed < self.k
            invariant
                self.hasher == h,
                self.k == old(self).k,
                self.insert_count == old(self).insert_count,
                h == old(self).hasher,
                start == bits_of(old(self).bit_vec),
                m == start.len(),
                m > 0,
                bytes@.len() <= u32::MAX,
                seed <= self.k,
                bits_of(self.bit_vec) == marked(h, seed, start, bytes@),
            decreases self.k - seed,
        {
            let hv = self.hasher.hash(seed, bytes);
            let pos = hv as usize % m;
            let ghost before = bits_of(self.bit_vec);
            bits_set(&mut self.bit_vec, pos, true);
            proof {
                assert(pos as int == slot(h, start.len(), seed, bytes@));
                let next = marked(h, (seed + 1) as u32, start, bytes@);
                assert forall|i: int| 0 <= i < start.len() implies bits_of(self.bit_vec)[i]
                    == next[i] by {
                    if i == pos as int {
                        assert(picked(h, (seed + 1) as u32, start.len(), bytes@, i));
                    } else if picked(h, (seed + 1) as u32, start.len(), bytes@, i) {
                        let s = choose|s: u32|
                            s < seed + 1 && #[trigger] slot(h, start.len(), s, bytes@) == i;
                        assert(s != seed);
                        assert(picked(h, seed, start.len(), bytes@, i));
                    }
                }
                assert(bits_of(self.bit_vec) =~= next);
            }
            seed = seed + 1;
        }
        self.insert_count = self.insert_count + 1;
    }

    /// Insert each of `items`, in order.
    pub fn insert_all(&mut self, items: &[Vec<u8>])
        requires
            old(self).wf(),
            old(self).spec_count() + items@.len() <= u64::MAX,
            forall|i: int| 0 <= i < items@.len() ==> #[trigger] items@[i]@.len() <= u32::MAX,
        ensures
            final(self).wf(),
            final(self).spec_hasher() == old(self).spec_hasher(),
            final(self).spec_k() == old(self).spec_k(),
            final(self).spec_bits() == marked_all(
                old(self).spec_hasher(),
                old(self).spec_k(),
                old(self).spec_bits(),
                views(items@),
            ),
            final(self).spec_count() == old(self).spec_count() + items@.len(),
    {
        let mut i: usize = 0;
        while i < items.len()
            invariant
                self.wf(),
                i <= items@.len(),
                self.spec_hasher() == old(self).spec_hasher(),
                self.spec_k() == old(self).spec_k(),
                self.spec_bits() == marked_all(
                    old(self).spec_hasher(),
                    old(self).spec_k(),
                    old(self).spec_bits(),
                    views(items@).take(i as int),
                ),
                self.spec_count() == old(self).spec_count() + i,
                old(self).spec_count() + items@.len() <= u64::MAX,
                forall|j: int| 0 <= j < items@.len() ==> #[trigger] items@[j]@.len() <= u32::MAX,
            decreases items@.len() - i,
        {
            self.insert(items[i].as_slice());
            proof {
                assert(views(items@).take(i + 1).drop_last() =~= views(items@).take(i as int));
                assert(views(items@)[i as int] == items@[i as int]@);
            }
            i = i + 1;
        }
        proof {
            assert(views(items@).take(i as int) =~= views(items@));
        }
    }

    /// Check whether a slice of bytes may be in the `BloomFilter`: true when
    /// the positions of all hash rounds are set.
    ///
    /// This may answer true for bytes never inserted, but never false for
    /// bytes that were.
    pub fn contains(&self, bytes: &[u8]) -> (r: bool)
        requires
            self.wf(),
            bytes@.len() <= u32::MAX,
        ensures
            r == self.spec_contains(bytes@),
    {
        let m = bits_len(&self.bit_vec);
        let mut seed: u32 = 0;
        while seed < self.k
            invariant
                self.wf(),
                m == self.spec_bits().len(),
                bytes@.len() <= u32::MAX,
                seed <= self.k,
                forall|s: u32|
                    s < seed ==> #[trigger] self.spec_bits()[slot(
                        self.hasher,
                        m as nat,
                        s,
                        bytes@,
                    )],
            decreases self.k - seed,
        {
            let hv = self.hasher.hash(seed, bytes);
            let pos = hv as usize % m;
            assert(pos as int == slot(self.hasher, m as nat, seed, bytes@));
            match bits_get(&self.bit_vec, pos) {
                Some(b) => {
                    if !b {
                        return false;
                    }
                },
                None => {
                    return false;
                },
            }
            seed = seed + 1;
        }
        true
    }

    /// The number of hash rounds per operation.
    pub fn hash_count(&self) -> (r: u32)
        ensures
            r == self.spec_k(),
    {
        self.k
    }

    /// The length of the bit array.
    pub fn bit_len(&self) -> (r: u64)
        requires
            self.wf(),
        ensures
            r == self.spec_bits().len(),
    {
        bits_len(&self.bit_vec) as u64
    }

    /// The number of `insert` calls so far, duplicates included.
    pub fn insert_count(&self) -> (r: u64)
        ensures
            r == self.spec_count(),
    {
        self.insert_count
    }
}

} // verus!
