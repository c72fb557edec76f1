//! Bumping the word field of many small records, once where the compiler
//! places the word on its natural alignment and once where the records are
//! packed byte after byte, so that most words straddle an alignment boundary.
use vstd::bytes::{
    lemma_auto_spec_u64_to_from_le_bytes, spec_u64_from_le_bytes, spec_u64_to_le_bytes,
    spec_u64_to_le_bytes_to_open, u64_from_le_bytes, u64_to_le_bytes,
};
use vstd::prelude::*;
use vstd::slice::slice_subrange;

verus! {

/// Number of records that each generator walks.
pub const RECORD_COUNT: usize = 10000;

/// Bytes that a packed record takes: one padding byte, then an eight-byte word.
pub const PACKED_RECORD_SIZE: usize = 9;

/// A padding byte and a word, laid out by the compiler, which puts the word on
/// its natural alignment.
#[derive(Clone, Copy)]
pub struct AlignedRecord {
    pub byte: u8,
    pub quan: u64,
}

/// Records of one padding byte and one little-endian word, stored back to back
/// with no gap, so the word of each record starts one byte after a record
/// boundary.
pub struct PackedRecords {
    bytes: Vec<u8>,
}

/// The word of record `k` in a packed byte sequence.
pub open spec fn packed_word(bytes: Seq<u8>, k: int) -> u64 {
    spec_u64_from_le_bytes(
        bytes.subrange(PACKED_RECORD_SIZE * k + 1, PACKED_RECORD_SIZE * k + PACKED_RECORD_SIZE),
    )
}

impl View for PackedRecords {
    type V = Seq<u64>;

    /// The word of each record, in order.
    closed spec fn view(&self) -> Seq<u64> {
        Seq::new(
            (self.bytes@.len() / PACKED_RECORD_SIZE as nat) as nat,
            |k: int| packed_word(self.bytes@, k),
        )
    }
}

/// Eight zero bytes read as a little-endian word give zero.
proof fn lemma_zero_bytes_word(s: Seq<u8>)
    requires
        s.len() == 8,
        forall|t: int| 0 <= t < 8 ==> s[t] == 0,
    ensures
        spec_u64_from_le_bytes(s) == 0,
{
    lemma_auto_spec_u64_to_from_le_bytes();
    spec_u64_to_le_bytes_to_open(0);
    assert(forall|x: u64| x == 0 ==> #[trigger] (x >> 8u64) & 0xff == 0 && x & 0xff == 0 && (x
        >> 16u64) & 0xff == 0 && (x >> 24u64) & 0xff == 0 && (x >> 32u64) & 0xff == 0 && (x >> 40u64)
        & 0xff == 0 && (x >> 48u64) & 0xff == 0 && (x >> 56u64) & 0xff == 0) by (bit_vector);
    assert(spec_u64_to_le_bytes(0) =~= s);
}

/// Relies on `<[u8]>::copy_from_slice`: the bytes of `src` replace
/// `buf[start..end]`, in one copy, and no other byte changes. The bounds and
/// the equal lengths that it would otherwise panic on are required.
#[verifier::external_body]
fn copy_into(buf: &mut Vec<u8>, start: usize, end: usize, src: &[u8])
    requires
        start <= end <= old(buf)@.len(),
        end - start == src@.len(),
    ensures
        final(buf)@.len() == old(buf)@.len(),
        forall|p: int|
            0 <= p < old(buf)@.len() ==> #[trigger] final(buf)@[p] == if start <= p < end {
                src@[p - start]
            } else {
                old(buf)@[p]
            },
{
    buf[start..end].copy_from_slice(src);
}

/// A record index below the number of whole records lies inside the buffer.
proof fn lemma_record_in_bounds(len: int, k: int)
    requires
        0 <= k < len / 9,
        0 <= len,
    ensures
        9 * k + 9 <= len,
{
    assert(9 * k + 9 <= len) by (nonlinear_arith)
        requires
            0 <= k < len / 9,
            0 <= len,
    ;
}

impl PackedRecords {
    /// The padding byte of each record, in order.
    pub closed spec fn pads(&self) -> Seq<u8> {
        Seq::new(
            (self.bytes@.len() / PACKED_RECORD_SIZE as nat) as nat,
            |k: int| self.bytes@[PACKED_RECORD_SIZE * k],
        )
    }

    /// The byte buffer holds a whole number of records.
    pub closed spec fn wf(&self) -> bool {
        self.bytes@.len() % PACKED_RECORD_SIZE as nat == 0
    }

    /// `count` records whose words are all zero.
    pub fn new_zeroed(count: usize) -> (r: PackedRecords)
        requires
            count * PACKED_RECORD_SIZE <= usize::MAX,
        ensures
            r.wf(),
            r@ == Seq::new(count as nat, |k: int| 0u64),
            r.pads() == Seq::new(count as nat, |k: int| 0u8),
    {
        let bytes: Vec<u8> = vec![0u8; count * PACKED_RECORD_SIZE];
        let r = PackedRecords { bytes };
        assert forall|k: int| 0 <= k < count implies packed_word(r.bytes@, k) == 0 by {
            lemma_zero_bytes_word(
                r.bytes@.subrange(
                    PACKED_RECORD_SIZE * k + 1,
                    PACKED_RECORD_SIZE * k + PACKED_RECORD_SIZE,
                ),
            );
        }
        assert(r@ =~= Seq::new(count as nat, |k: int| 0u64));
        assert(r.pads() =~= Seq::new(count as nat, |k: int| 0u8));
        r
    }

    /// Number of records.
    pub fn len(&self) -> (r: usize)
        requires
            self.wf(),
        ensures
            r == self@.len(),
    {
        self.bytes.len() / PACKED_RECORD_SIZE
    }

    /// The word of record `k`.
    pub fn word(&self, k: usize) -> (r: u64)
        requires
            self.wf(),
            k < self@.len(),
        ensures
            r == self@[k as int],
    {
        proof {
            assert(self@.len() == self.bytes@.len() / 9);
            lemma_record_in_bounds(self.bytes@.len() as int, k as int);
            assert(PACKED_RECORD_SIZE * k + PACKED_RECORD_SIZE <= self.bytes.len());
        }
        let off = PACKED_RECORD_SIZE * k + 1;
        u64_from_le_bytes(slice_subrange(self.bytes.as_slice(), off, off + 8))
    }

    /// The padding byte of record `k`.
    pub fn padding(&self, k: usize) -> (r: u8)
        requires
            self.wf(),
            k < self@.len(),
        ensures
            r == self.pads()[k as int],
    {
        proof {
            assert(self@.len() == self.bytes@.len() / 9);
            lemma_record_in_bounds(self.bytes@.len() as int, k as int);
            assert(PACKED_RECORD_SIZE * k + PACKED_RECORD_SIZE <= self.bytes.len());
        }
        self.bytes[PACKED_RECORD_SIZE * k]
    }

    /// Adds one to the word of record `k`, reading and writing it where it
    /// lies, across its alignment boundary.
    pub fn increment(&mut self, k: usize)
        requires
            old(self).wf(),
            k < old(self)@.len(),
            old(self)@[k as int] < u64::MAX,
        ensures
            final(self).wf(),
            final(self)@ == old(self)@.update(k as int, (old(self)@[k as int] + 1) as u64),
            final(self).pads() == old(self).pads(),
    {
        let ghost b0 = self.bytes@;
        proof {
            assert(self@.len() == self.bytes@.len() / 9);
            lemma_record_in_bounds(self.bytes@.len() as int, k as int);
            assert(PACKED_RECORD_SIZE * k + PACKED_RECORD_SIZE <= self.bytes.len());
        }
        let off = PACKED_RECORD_SIZE * k + 1;
        let w = self.word(k);
        let w1 = w + 1;
        let nb = u64_to_le_bytes(w1);
        copy_into(&mut self.bytes, off, off + 8, nb.as_slice());
        proof {
            lemma_auto_spec_u64_to_from_le_bytes();
            assert(self.bytes@.subrange(off as int, off + 8) =~= nb@);
            assert forall|j: int| 0 <= j < old(self)@.len() && j != k implies packed_word(
                self.bytes@,
                j,
            ) == packed_word(b0, j) by {
                assert(self.bytes@.subrange(
                    PACKED_RECORD_SIZE * j + 1,
                    PACKED_RECORD_SIZE * j + PACKED_RECORD_SIZE,
                ) =~= b0.subrange(
                    PACKED_RECORD_SIZE * j + 1,
                    PACKED_RECORD_SIZE * j + PACKED_RECORD_SIZE,
                ));
            }
            assert(self@ =~= old(self)@.update(k as int, (old(self)@[k as int] + 1) as u64));
            assert(self.pads() =~= old(self).pads());
        }
    }
}

/// Builds `RECORD_COUNT` zeroed records with the word on its natural
/// alignment and adds one to each word, in order.
pub fn aligned_access() -> (r: Vec<AlignedRecord>)
    ensures
        r@.len() == RECORD_COUNT,
        forall|k: int| 0 <= k < RECORD_COUNT ==> (#[trigger] r@[k]).quan == 1 && r@[k].byte == 0,
{
    let foo = AlignedRecord { byte: 0, quan: 0 };
    let mut arr: Vec<AlignedRecord> = vec![foo; RECORD_COUNT];
    let mut k: usize = 0;
    while k < RECORD_COUNT
        invariant
            arr@.len() == RECORD_COUNT,
            0 <= k <= RECORD_COUNT,
            forall|j: int| 0 <= j < k ==> (#[trigger] arr@[j]).quan == 1 && arr@[j].byte == 0,
            forall|j: int| k <= j < RECORD_COUNT ==> (#[trigger] arr@[j]).quan == 0 && arr@[j].byte == 0,
        decreases RECORD_COUNT - k,
    {
        let f = arr[k];
        arr.set(k, AlignedRecord { byte: f.byte, quan: f.quan + 1 });
        k = k + 1;
    }
    arr
}

/// Builds `RECORD_COUNT` zeroed packed records and adds one to each word, in
/// order.
pub fn unaligned_access() -> (r: PackedRecords)
    ensures
        r.wf(),
        r@ == Seq::new(RECORD_COUNT as nat, |k: int| 1u64),
        r.pads() == Seq::new(RECORD_COUNT as nat, |k: int| 0u8),
{
    let mut arr = PackedRecords::new_zeroed(RECORD_COUNT);
    let mut k: usize = 0;
    while k < RECORD_COUNT
        invariant
            arr.wf(),
            arr@.len() == RECORD_COUNT,
            arr.pads() == Seq::new(RECORD_COUNT as nat, |k: int| 0u8),
            0 <= k <= RECORD_COUNT,
            forall|j: int| 0 <= j < k ==> #[trigger] arr@[j] == 1,
            forall|j: int| k <= j < RECORD_COUNT ==> #[trigger] arr@[j] == 0,
        decreases RECORD_COUNT - k,
    {
        arr.increment(k);
        k = k + 1;
    }
    assert(arr@ =~= Seq::new(RECORD_COUNT as nat, |k: int| 1u64));
    arr
}

} // verus!
