//! Bit vectors, most significant bit of each byte first, as `bitvec`
//! provides them.

use vstd::prelude::*;
use bitvec::order::Msb0;
use bitvec::vec::BitVec;

verus! {

/// A `BitVec<u8, Msb0>`. What it holds is `bits_of`.
#[verifier::external_body]
pub struct Bits {
    inner: BitVec<u8, Msb0>,
}

/// The bits that a bit vector holds, first bit first.
pub uninterp spec fn bits_of(b: Bits) -> Seq<bool>;

impl View for Bits {
    type V = Seq<bool>;

    open spec fn view(&self) -> Seq<bool> {
        bits_of(*self)
    }
}

/// The most bits that a bit vector can hold.
pub open spec fn max_bits() -> nat {
    (usize::MAX / 8) as nat
}

/// Bit `k` of a byte, where bit 0 is the most significant.
pub open spec fn bit_of_byte(b: u8, k: int) -> bool {
    (b >> ((7 - k) as u8)) & 1u8 == 1u8
}

/// The bits of a byte string, each byte's most significant bit first.
pub open spec fn bytes_to_bits(bytes: Seq<u8>) -> Seq<bool> {
    Seq::new(bytes.len() * 8, |i: int| bit_of_byte(bytes[i / 8], i % 8))
}

/// Whether `bytes` holds exactly the bits `bits`, each byte's most
/// significant bit first; the bits of the last byte that lie behind the
/// end are free.
pub open spec fn bytes_hold(bytes: Seq<u8>, bits: Seq<bool>) -> bool {
    &&& bytes.len() == (bits.len() + 7) / 8
    &&& forall|i: int| 0 <= i < bits.len() ==> bit_of_byte(bytes[i / 8], i % 8) == #[trigger] bits[i]
}

/// `bits` with each bit from `off` on set that is set in `src`.
pub open spec fn or_bits(bits: Seq<bool>, off: int, src: Seq<bool>) -> Seq<bool> {
    Seq::new(
        bits.len(),
        |i: int|
            if off <= i < off + src.len() {
                bits[i] || src[i - off]
            } else {
                bits[i]
            },
    )
}

/// `BitVec::len`: trusted to give the number of bits held.
#[verifier::external_body]
fn raw_len(b: &Bits) -> (r: usize)
    ensures
        r == bits_of(*b).len(),
{
    b.inner.len()
}

/// `BitVec::repeat` with `false`: trusted to give `len` bits, all clear.
/// It panics above the most bits a vector can hold.
#[verifier::external_body]
fn raw_zeroed(len: usize) -> (r: Bits)
    requires
        len <= max_bits(),
    ensures
        bits_of(r) == Seq::new(len as nat, |i: int| false),
{
    Bits { inner: BitVec::repeat(false, len) }
}

/// `BitVec::from_slice`: trusted to give the bits of the bytes in order,
/// each byte's most significant bit first. It panics on a slice whose
/// bits a vector cannot hold.
#[verifier::external_body]
fn raw_from_bytes(bytes: &[u8]) -> (r: Bits)
    requires
        bytes@.len() * 8 <= max_bits(),
    ensures
        bits_of(r) == bytes_to_bits(bytes@),
{
    Bits { inner: BitVec::from_slice(bytes) }
}

/// Indexing by a range and `BitSlice::to_bitvec`: trusted to give the
/// bits from `from` up to `to`. Indexing panics on a range outside the
/// vector.
#[verifier::external_body]
fn raw_slice(b: &Bits, from: usize, to: usize) -> (r: Bits)
    requires
        from <= to <= bits_of(*b).len(),
    ensures
        bits_of(r) == bits_of(*b).subrange(from as int, to as int),
{
    Bits { inner: b.inner[from..to].to_bitvec() }
}

/// `|=` of a bit slice into a range of the vector: trusted to set each
/// bit of the range that is set in `src` and to leave every other bit as
/// it was. Indexing panics on a range outside the vector.
#[verifier::external_body]
fn raw_or_at(b: &mut Bits, off: usize, src: &Bits)
    requires
        off + bits_of(*src).len() <= bits_of(*old(b)).len(),
    ensures
        bits_of(*final(b)) == or_bits(bits_of(*old(b)), off as int, bits_of(*src)),
{
    b.inner[off..off + src.inner.len()] |= src.inner.as_bitslice();
}

/// `BitVec::force_align` on a copy, then `BitVec::as_raw_slice`: trusted
/// to give the bytes that hold the bits from the first byte's most
/// significant bit on. `bitvec` leaves open what stands in the last byte
/// behind the end.
#[verifier::external_body]
fn raw_bytes(b: &Bits) -> (r: Vec<u8>)
    ensures
        bytes_hold(r@, bits_of(*b)),
{
    let mut aligned = b.inner.clone();
    aligned.force_align();
    aligned.as_raw_slice().to_vec()
}

/// `BitVec::clone`: trusted to give a vector that holds the same bits.
#[verifier::external_body]
fn raw_clone(b: &Bits) -> (r: Bits)
    ensures
        bits_of(r) == bits_of(*b),
{
    Bits { inner: b.inner.clone() }
}

impl Clone for Bits {
    fn clone(&self) -> (r: Self)
        ensures
            r@ == self@,
    {
        raw_clone(self)
    }
}

impl Bits {
    /// The number of bits held.
    pub fn len(&self) -> (r: usize)
        ensures
            r == self@.len(),
    {
        raw_len(self)
    }

    /// `len` bits, all clear.
    pub fn zeroed(len: usize) -> (r: Bits)
        requires
            len <= max_bits(),
        ensures
            r@ == Seq::new(len as nat, |i: int| false),
    {
        raw_zeroed(len)
    }

    /// The bits of a byte string.
    pub fn from_bytes(bytes: &[u8]) -> (r: Bits)
        requires
            bytes@.len() * 8 <= max_bits(),
        ensures
            r@ == bytes_to_bits(bytes@),
    {
        raw_from_bytes(bytes)
    }

    /// The eight bits of one byte.
    pub fn from_byte(b: u8) -> (r: Bits)
        ensures
            r@ == bytes_to_bits(seq![b]),
    {
        let bytes: [u8; 1] = [b];
        assert(bytes@ =~= seq![b]);
        raw_from_bytes(bytes.as_slice())
    }

    /// The bits from `from` up to `to`.
    pub fn slice(&self, from: usize, to: usize) -> (r: Bits)
        requires
            from <= to <= self@.len(),
        ensures
            r@ == self@.subrange(from as int, to as int),
    {
        raw_slice(self, from, to)
    }

    /// Sets each bit from `off` on that is set in `src`; every other bit
    /// stays as it is.
    pub fn or_at(&mut self, off: usize, src: &Bits)
        requires
            off + src@.len() <= old(self)@.len(),
        ensures
            final(self)@ == or_bits(old(self)@, off as int, src@),
    {
        raw_or_at(self, off, src);
    }

    /// The bytes that hold the bits.
    pub fn to_bytes(&self) -> (r: Vec<u8>)
        ensures
            bytes_hold(r@, self@),
    {
        raw_bytes(self)
    }
}

/// Two bytes with the same eight bits are the same byte.
pub proof fn lemma_byte_by_bits(a: u8, b: u8)
    requires
        forall|k: int| 0 <= k < 8 ==> bit_of_byte(a, k) == bit_of_byte(b, k),
    ensures
        a == b,
{
    assert(bit_of_byte(a, 0) == bit_of_byte(b, 0));
    assert(bit_of_byte(a, 1) == bit_of_byte(b, 1));
    assert(bit_of_byte(a, 2) == bit_of_byte(b, 2));
    assert(bit_of_byte(a, 3) == bit_of_byte(b, 3));
    assert(bit_of_byte(a, 4) == bit_of_byte(b, 4));
    assert(bit_of_byte(a, 5) == bit_of_byte(b, 5));
    assert(bit_of_byte(a, 6) == bit_of_byte(b, 6));
    assert(bit_of_byte(a, 7) == bit_of_byte(b, 7));
    assert(((a >> 7u8) & 1u8 == 1u8) == ((b >> 7u8) & 1u8 == 1u8) && ((a >> 6u8) & 1u8 == 1u8) == ((
    b >> 6u8) & 1u8 == 1u8) && ((a >> 5u8) & 1u8 == 1u8) == ((b >> 5u8) & 1u8 == 1u8) && ((a
        >> 4u8) & 1u8 == 1u8) == ((b >> 4u8) & 1u8 == 1u8) && ((a >> 3u8) & 1u8 == 1u8) == ((b
        >> 3u8) & 1u8 == 1u8) && ((a >> 2u8) & 1u8 == 1u8) == ((b >> 2u8) & 1u8 == 1u8) && ((a
        >> 1u8) & 1u8 == 1u8) == ((b >> 1u8) & 1u8 == 1u8) && ((a >> 0u8) & 1u8 == 1u8) == ((b
        >> 0u8) & 1u8 == 1u8) ==> a == b) by (bit_vector);
}

/// Bytes that hold the bits of a byte string are that byte string.
pub proof fn lemma_bytes_round_trip(bytes: Seq<u8>, held: Seq<u8>)
    requires
        bytes_hold(held, bytes_to_bits(bytes)),
    ensures
        held == bytes,
{
    let bits = bytes_to_bits(bytes);
    assert(held.len() == bytes.len());
    assert forall|j: int| 0 <= j < bytes.len() implies held[j] == bytes[j] by {
        assert forall|k: int| 0 <= k < 8 implies bit_of_byte(held[j], k) == bit_of_byte(
            bytes[j],
            k,
        ) by {
            let i = j * 8 + k;
            assert(i / 8 == j && i % 8 == k);
            assert(bits[i] == bit_of_byte(bytes[j], k));
        }
        lemma_byte_by_bits(held[j], bytes[j]);
    }
    assert(held =~= bytes);
}

} // verus!
