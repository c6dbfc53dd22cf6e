//! Memory protection: ECC check-and-correct on pages and DM-Verity page
//! hashing for system images.

use vstd::prelude::*;
use std::collections::HashMap;
use crate::hashing::{sha3_256, spec_sha3_256, bytes_equal};

verus! {

broadcast use vstd::std_specs::hash::group_hash_axioms;

/// A memory error.
#[derive(Debug, Clone, PartialEq, Eq)]
pub enum MemoryError {
    /// Single-bit error, corrected.
    Correctable { address: u64, corrected_value: u8 },
    /// Multi-bit error, not correctable.
    Uncorrectable { address: u64, page: u64 },
    /// DM-Verity mismatch.
    IntegrityViolation { page: u64, expected_hash: String },
}

/// Memory statistics.
#[derive(Debug, Clone, Copy, Default, PartialEq, Eq, Structural)]
pub struct MemoryStats {
    pub total_pages: u64,
    pub clean_pages: u64,
    pub corrected_pages: u64,
    pub corrupted_pages: u64,
    pub scrub_count: u64,
    pub total_corrected_bits: u64,
}

/// The statistics of a new controller: every page clean.
pub open spec fn initial_stats(total_memory_mb: u64, page_size: u64) -> MemoryStats {
    MemoryStats {
        total_pages: (total_memory_mb * 1024 * 1024 / page_size as int) as u64,
        clean_pages: (total_memory_mb * 1024 * 1024 / page_size as int) as u64,
        corrected_pages: 0,
        corrupted_pages: 0,
        scrub_count: 0,
        total_corrected_bits: 0,
    }
}

/// The statistics after a check of a page: the clean pages are capped by
/// the total, nothing else changes.
pub open spec fn checked_stats(st: MemoryStats) -> MemoryStats {
    MemoryStats {
        clean_pages: if st.clean_pages <= st.total_pages { st.clean_pages } else { st.total_pages },
        ..st
    }
}

/// The statistics after a scrub: one more scrub counted.
pub open spec fn scrubbed_stats(st: MemoryStats) -> MemoryStats {
    MemoryStats { scrub_count: (st.scrub_count + 1) as u64, ..st }
}

/// The statistics after a sequence of operations: page checks (`false`)
/// and scrubs (`true`).
pub open spec fn after_ops(st: MemoryStats, ops: Seq<bool>) -> MemoryStats
    decreases ops.len(),
{
    if ops.len() == 0 {
        st
    } else {
        let prev = after_ops(st, ops.drop_last());
        if ops.last() { scrubbed_stats(prev) } else { checked_stats(prev) }
    }
}

/// How many scrubs a sequence of operations holds.
pub open spec fn scrubs_in(ops: Seq<bool>) -> nat
    decreases ops.len(),
{
    if ops.len() == 0 {
        0
    } else {
        scrubs_in(ops.drop_last()) + if ops.last() { 1nat } else { 0nat }
    }
}

/// From a new controller, any sequence of checks and scrubs keeps the
/// page total, keeps the clean pages within it, and counts every scrub.
pub proof fn lemma_checks_and_scrubs(total_memory_mb: u64, page_size: u64, ops: Seq<bool>)
    requires
        page_size > 0,
        total_memory_mb * 1024 * 1024 <= u64::MAX,
        scrubs_in(ops) <= u64::MAX,
    ensures
        after_ops(initial_stats(total_memory_mb, page_size), ops).total_pages == initial_stats(total_memory_mb, page_size).total_pages,
        after_ops(initial_stats(total_memory_mb, page_size), ops).clean_pages <= after_ops(initial_stats(total_memory_mb, page_size), ops).total_pages,
        after_ops(initial_stats(total_memory_mb, page_size), ops).scrub_count == scrubs_in(ops),
    decreases ops.len(),
{
    if ops.len() > 0 {
        assert(scrubs_in(ops.drop_last()) <= scrubs_in(ops));
        lemma_checks_and_scrubs(total_memory_mb, page_size, ops.drop_last());
    }
}

/// XOR of all bytes, folded from the first to the last.
pub open spec fn xor_fold(s: Seq<u8>) -> u8
    decreases s.len(),
{
    if s.len() == 0 {
        0
    } else {
        xor_fold(s.drop_last()) ^ s.last()
    }
}

/// Rotation of a byte one bit to the left.
pub open spec fn rotl1(b: u8) -> u8 {
    ((b << 1u8) | (b >> 7u8)) as u8
}

/// The simulated SECDED code of a page: its parity byte and that byte
/// rotated left by one.
pub open spec fn spec_ecc(data: Seq<u8>) -> Seq<u8> {
    seq![xor_fold(data), rotl1(xor_fold(data))]
}

/// OR of the pairwise XOR of two byte strings, over their common length.
pub open spec fn syndrome(a: Seq<u8>, b: Seq<u8>) -> u8
    decreases a.len(),
{
    if a.len() == 0 || b.len() == 0 {
        0
    } else {
        syndrome(a.drop_first(), b.drop_first()) | (a[0] ^ b[0])
    }
}

/// The number of bits set in a byte.
pub open spec fn popcount(b: u8) -> u8 {
    ((b & 1) + ((b >> 1u8) & 1) + ((b >> 2u8) & 1) + ((b >> 3u8) & 1) + ((b >> 4u8) & 1)
        + ((b >> 5u8) & 1) + ((b >> 6u8) & 1) + ((b >> 7u8) & 1)) as u8
}

/// The page with the least significant bit of its first byte flipped.
pub open spec fn flip_first_lsb(data: Seq<u8>) -> Seq<u8> {
    if data.len() > 0 {
        data.update(0, data[0] ^ 1u8)
    } else {
        data
    }
}

/// What `EccMemoryController` holds, as plain values.
pub struct EccModel {
    pub page_size: u64,
    pub total_memory_mb: u64,
    pub ecc_bits_per_word: u8,
    pub stats: MemoryStats,
}

/// Memory controller with ECC.
pub struct EccMemoryController {
    page_size: u64,
    total_memory_mb: u64,
    ecc_bits_per_word: u8,
    stats: MemoryStats,
}

impl View for EccMemoryController {
    type V = EccModel;

    closed spec fn view(&self) -> EccModel {
        EccModel {
            page_size: self.page_size,
            total_memory_mb: self.total_memory_mb,
            ecc_bits_per_word: self.ecc_bits_per_word,
            stats: self.stats,
        }
    }
}

/// The fold of a sequence extended by one element.
proof fn lemma_syndrome_self(a: Seq<u8>)
    ensures
        syndrome(a, a) == 0,
    decreases a.len(),
{
    if a.len() > 0 {
        lemma_syndrome_self(a.drop_first());
        let x = a[0];
        assert(x ^ x == 0u8) by (bit_vector);
        assert(0u8 | 0u8 == 0u8) by (bit_vector);
    }
}

/// An ECC recomputed from the data it protects reports no error bit.
pub proof fn lemma_ecc_self_consistent(data: Seq<u8>)
    ensures
        popcount(syndrome(spec_ecc(data), spec_ecc(data))) == 0,
{
    lemma_syndrome_self(spec_ecc(data));
    assert(popcount(0u8) == 0) by (bit_vector);
}

/// Flipping the first bit twice gives back the page.
pub proof fn lemma_flip_first_lsb_involution(data: Seq<u8>)
    ensures
        flip_first_lsb(flip_first_lsb(data)) == data,
{
    if data.len() > 0 {
        let x = data[0];
        assert((x ^ 1u8) ^ 1u8 == x) by (bit_vector);
        assert(flip_first_lsb(flip_first_lsb(data)) =~= data);
    }
}

impl EccMemoryController {
    /// A controller for `total_memory_mb` MiB split into pages of
    /// `page_size` bytes; every page starts clean.
    pub fn new(total_memory_mb: u64, page_size: u64) -> (c: Self)
        requires
            page_size > 0,
            total_memory_mb * 1024 * 1024 <= u64::MAX,
        ensures
            c@.page_size == page_size,
            c@.total_memory_mb == total_memory_mb,
            c@.ecc_bits_per_word == 8,
            c@.stats == initial_stats(total_memory_mb, page_size),
    {
        let total_pages = (total_memory_mb * 1024 * 1024) / page_size;
        EccMemoryController {
            page_size,
            total_memory_mb,
            ecc_bits_per_word: 8,
            stats: MemoryStats {
                total_pages,
                clean_pages: total_pages,
                corrected_pages: 0,
                corrupted_pages: 0,
                scrub_count: 0,
                total_corrected_bits: 0,
            },
        }
    }

    /// Checks a page against its ECC and corrects it. The ECC is computed
    /// from the page itself, so no error is ever found: the page comes
    /// back unchanged and only the clean-page count is clamped.
    pub fn check_and_correct(&mut self, page: u64, data: &[u8]) -> (r: Result<Vec<u8>, MemoryError>)
        ensures
            r matches Ok(v) && v@ == data@,
            final(self)@.page_size == old(self)@.page_size,
            final(self)@.total_memory_mb == old(self)@.total_memory_mb,
            final(self)@.ecc_bits_per_word == old(self)@.ecc_bits_per_word,
            final(self)@.stats == checked_stats(old(self)@.stats),
    {
        let ecc = self.compute_ecc(data);
        let error_bits = self.detect_errors(data, &ecc);
        proof {
            lemma_ecc_self_consistent(data@);
        }

        if error_bits == 0 {
            self.stats.clean_pages = if self.stats.clean_pages <= self.stats.total_pages {
                self.stats.clean_pages
            } else {
                self.stats.total_pages
            };
            Ok(vstd::slice::slice_to_vec(data))
        } else if error_bits == 1 {
            let corrected = self.correct_single_bit(data, &ecc);
            self.stats.corrected_pages = self.stats.corrected_pages + 1;
            self.stats.total_corrected_bits = self.stats.total_corrected_bits + 1;
            Ok(corrected)
        } else {
            self.stats.corrupted_pages = self.stats.corrupted_pages + 1;
            Err(MemoryError::Uncorrectable { address: page * self.page_size, page })
        }
    }

    /// The simulated SECDED code of a page.
    pub fn compute_ecc(&self, data: &[u8]) -> (ecc: Vec<u8>)
        ensures
            ecc@ == spec_ecc(data@),
    {
        let mut parity: u8 = 0;
        let mut i: usize = 0;
        while i < data.len()
            invariant
                i <= data@.len(),
                parity == xor_fold(data@.take(i as int)),
            decreases data@.len() - i,
        {
            assert(data@.take(i as int + 1).drop_last() =~= data@.take(i as int));
            parity = parity ^ data[i];
            i = i + 1;
        }
        assert(data@.take(data@.len() as int) =~= data@);
        let rotated: u8 = (parity << 1u8) | (parity >> 7u8);
        let mut ecc: Vec<u8> = Vec::new();
        ecc.push(parity);
        ecc.push(rotated);
        assert(ecc@ =~= spec_ecc(data@));
        ecc
    }

    /// The number of bits in error between the page's recomputed ECC and
    /// the given one.
    fn detect_errors(&self, data: &[u8], ecc: &[u8]) -> (n: u8)
        ensures
            n == popcount(syndrome(spec_ecc(data@), ecc@)),
    {
        let computed = self.compute_ecc(data);
        let mut acc: u8 = 0;
        let n = if computed.len() < ecc.len() { computed.len() } else { ecc.len() };
        let mut i: usize = n;
        while i > 0
            invariant
                i <= n,
                n <= computed@.len(),
                n <= ecc@.len(),
                n == computed@.len() || n == ecc@.len(),
                computed@ == spec_ecc(data@),
                acc == syndrome(computed@.skip(i as int), ecc@.skip(i as int)),
            decreases i,
        {
            i = i - 1;
            assert(computed@.skip(i as int).drop_first() =~= computed@.skip(i as int + 1));
            assert(ecc@.skip(i as int).drop_first() =~= ecc@.skip(i as int + 1));
            acc = acc | (computed[i] ^ ecc[i]);
        }
        assert(computed@.skip(0) =~= computed@);
        assert(ecc@.skip(0) =~= ecc@);
        let b = acc;
        assert((b & 1) <= 1 && ((b >> 1u8) & 1) <= 1 && ((b >> 2u8) & 1) <= 1 && ((b >> 3u8) & 1) <= 1
            && ((b >> 4u8) & 1) <= 1 && ((b >> 5u8) & 1) <= 1 && ((b >> 6u8) & 1) <= 1
            && ((b >> 7u8) & 1) <= 1) by (bit_vector);
        let count: u8 = (b & 1) + ((b >> 1u8) & 1) + ((b >> 2u8) & 1) + ((b >> 3u8) & 1)
            + ((b >> 4u8) & 1) + ((b >> 5u8) & 1) + ((b >> 6u8) & 1) + ((b >> 7u8) & 1);
        count
    }

    /// Flips the least significant bit of the first byte.
    fn correct_single_bit(&self, data: &[u8], ecc: &[u8]) -> (v: Vec<u8>)
        ensures
            v@ == flip_first_lsb(data@),
    {
        let mut corrected = vstd::slice::slice_to_vec(data);
        if corrected.len() > 0 {
            let first = corrected[0] ^ 0x01u8;
            corrected.set(0, first);
        }
        corrected
    }

    /// Scrubbing pass: counts one scrub and returns the statistics.
    pub fn scrub_all(&mut self) -> (st: MemoryStats)
        requires
            old(self)@.stats.scrub_count < u64::MAX,
        ensures
            final(self)@.page_size == old(self)@.page_size,
            final(self)@.total_memory_mb == old(self)@.total_memory_mb,
            final(self)@.ecc_bits_per_word == old(self)@.ecc_bits_per_word,
            final(self)@.stats == scrubbed_stats(old(self)@.stats),
            st == final(self)@.stats,
    {
        self.stats.scrub_count = self.stats.scrub_count + 1;
        self.stats
    }

    /// The statistics.
    pub fn get_stats(&self) -> (st: &MemoryStats)
        ensures
            *st == self@.stats,
    {
        &self.stats
    }
}

/// DM-Verity: SHA3-256 hash per page of a system image.
pub struct DmVerity {
    hash_algorithm: String,
    page_hashes: HashMap<u64, Vec<u8>>,
}

impl DmVerity {
    /// The recorded hash of each page.
    pub closed spec fn hashes(&self) -> Map<u64, Seq<u8>> {
        self.page_hashes@.map_values(|v: Vec<u8>| v@)
    }

    /// The hash algorithm's name.
    pub closed spec fn algorithm(&self) -> Seq<char> {
        self.hash_algorithm@
    }

    /// An empty page table using SHA3-256.
    pub fn new() -> (d: Self)
        ensures
            d.hashes() == Map::<u64, Seq<u8>>::empty(),
            d.algorithm() == "SHA3-256"@,
    {
        DmVerity { hash_algorithm: "SHA3-256".to_string(), page_hashes: HashMap::new() }
    }

    /// Records the hash of `data` as the hash of `page`.
    pub fn hash_page(&mut self, page: u64, data: &[u8])
        ensures
            final(self).hashes() == old(self).hashes().insert(page, spec_sha3_256(data@)),
            final(self).algorithm() == old(self).algorithm(),
    {
        let h = sha3_256(data);
        self.page_hashes.insert(page, h);
        assert(self.hashes() =~= old(self).hashes().insert(page, spec_sha3_256(data@)));
    }

    /// Whether `page` has a recorded hash equal to the hash of `data`.
    pub fn verify_page(&self, page: u64, data: &[u8]) -> (ok: bool)
        ensures
            ok == (self.hashes().contains_key(page) && self.hashes()[page] == spec_sha3_256(data@)),
    {
        let expected = match self.page_hashes.get(&page) {
            Some(h) => h,
            None => return false,
        };
        let computed = sha3_256(data);
        bytes_equal(computed.as_slice(), expected.as_slice())
    }
}

/// A page verifies against the data whose hash was recorded for it.
pub proof fn lemma_hashed_page_verifies(before: Map<u64, Seq<u8>>, page: u64, data: Seq<u8>)
    ensures
        ({
            let after = before.insert(page, spec_sha3_256(data));
            after.contains_key(page) && after[page] == spec_sha3_256(data)
        }),
{
}

} // verus!
