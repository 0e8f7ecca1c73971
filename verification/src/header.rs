//! Parsed headers as bit fields, and the struct of headers that a packet
//! is parsed into and written out from.

use vstd::prelude::*;
use vstd::string::StringExecFns;
use crate::bits::{bit_of_byte, bytes_hold, bytes_to_bits, lemma_bytes_round_trip, max_bits, Bits};

verus! {

/// One field of a header: its name and its bits. The width of the field
/// is the number of its bits.
pub struct Field {
    pub name: String,
    pub value: Bits,
}

/// A header: its fields in the order of the wire, and whether it is part
/// of the packet.
pub struct PacketHeader {
    pub name: String,
    pub valid: bool,
    pub fields: Vec<Field>,
}

/// The struct of headers of a packet, in the order of the wire.
pub struct PacketStruct {
    pub members: Vec<PacketHeader>,
}

/// The sum of the widths of the fields.
pub open spec fn size_of(fields: Seq<Field>) -> nat
    decreases fields.len(),
{
    if fields.len() == 0 {
        0
    } else {
        size_of(fields.drop_last()) + fields.last().value@.len()
    }
}

/// The bits of the fields, one field after the other.
pub open spec fn bits_of_fields(fields: Seq<Field>) -> Seq<bool>
    decreases fields.len(),
{
    if fields.len() == 0 {
        Seq::empty()
    } else {
        bits_of_fields(fields.drop_last()) + fields.last().value@
    }
}

/// Whether two field lists have the same names and widths, field by
/// field.
pub open spec fn same_layout(a: Seq<Field>, b: Seq<Field>) -> bool {
    &&& a.len() == b.len()
    &&& forall|i: int|
        0 <= i < a.len() ==> (#[trigger] a[i]).name@ == b[i].name@ && a[i].value@.len()
            == b[i].value@.len()
}

/// The sum of the sizes of the valid headers.
pub open spec fn valid_size_of(members: Seq<PacketHeader>) -> nat
    decreases members.len(),
{
    if members.len() == 0 {
        0
    } else {
        valid_size_of(members.drop_last()) + if members.last().valid {
            members.last().size_spec()
        } else {
            0
        }
    }
}

/// The bits of the valid headers, one header after the other.
pub open spec fn valid_bits_of(members: Seq<PacketHeader>) -> Seq<bool>
    decreases members.len(),
{
    if members.len() == 0 {
        Seq::empty()
    } else if members.last().valid {
        valid_bits_of(members.drop_last()) + members.last().bits()
    } else {
        valid_bits_of(members.drop_last())
    }
}

/// The sum over the valid headers of the whole bytes of each.
pub open spec fn parsed_bytes_of(members: Seq<PacketHeader>) -> nat
    decreases members.len(),
{
    if members.len() == 0 {
        0
    } else {
        parsed_bytes_of(members.drop_last()) + if members.last().valid {
            members.last().size_spec() / 8
        } else {
            0
        }
    }
}

/// The fields have as many bits as their widths add up to.
pub proof fn lemma_bits_of_fields_len(fields: Seq<Field>)
    ensures
        bits_of_fields(fields).len() == size_of(fields),
    decreases fields.len(),
{
    if fields.len() > 0 {
        lemma_bits_of_fields_len(fields.drop_last());
    }
}

/// The first fields are no wider than all of them.
pub proof fn lemma_size_of_prefix(fields: Seq<Field>, i: int)
    requires
        0 <= i <= fields.len(),
    ensures
        size_of(fields.take(i)) <= size_of(fields),
    decreases fields.len(),
{
    if i == fields.len() {
        assert(fields.take(i) =~= fields);
    } else {
        lemma_size_of_prefix(fields.drop_last(), i);
        assert(fields.drop_last().take(i) =~= fields.take(i));
    }
}

/// Fields of the same layout have the same size.
pub proof fn lemma_same_layout_size(a: Seq<Field>, b: Seq<Field>)
    requires
        same_layout(a, b),
    ensures
        size_of(a) == size_of(b),
    decreases a.len(),
{
    if a.len() > 0 {
        assert(a.last() == a[a.len() - 1]);
        lemma_same_layout_size(a.drop_last(), b.drop_last());
    }
}

/// The valid headers have as many bits as their sizes add up to.
pub proof fn lemma_valid_bits_len(members: Seq<PacketHeader>)
    ensures
        valid_bits_of(members).len() == valid_size_of(members),
    decreases members.len(),
{
    if members.len() > 0 {
        lemma_valid_bits_len(members.drop_last());
        lemma_bits_of_fields_len(members.last().fields@);
    }
}

/// The first headers take no more bits and bytes than all of them, and
/// the whole bytes of the valid headers are no more than an eighth of
/// their bits.
pub proof fn lemma_valid_prefix(members: Seq<PacketHeader>, i: int)
    requires
        0 <= i <= members.len(),
    ensures
        valid_size_of(members.take(i)) <= valid_size_of(members),
        parsed_bytes_of(members.take(i)) <= parsed_bytes_of(members),
        parsed_bytes_of(members) * 8 <= valid_size_of(members),
    decreases members.len(),
{
    if members.len() > 0 {
        lemma_valid_prefix(members.drop_last(), members.len() - 1);
        assert(members.drop_last().take(members.len() - 1) =~= members.drop_last());
    }
    if i == members.len() {
        assert(members.take(i) =~= members);
    } else {
        lemma_valid_prefix(members.drop_last(), i);
        assert(members.drop_last().take(i) =~= members.take(i));
    }
}

impl PacketHeader {
    /// The size of the header in bits: the sum of the widths of its
    /// fields, whatever they hold and whether or not it is valid.
    pub open spec fn size_spec(&self) -> nat {
        size_of(self.fields@)
    }

    /// The bits of the header: its fields, one after the other.
    pub open spec fn bits(&self) -> Seq<bool> {
        bits_of_fields(self.fields@)
    }

    /// The header is no larger than a bit vector can be.
    pub open spec fn wf(&self) -> bool {
        self.size_spec() <= max_bits()
    }

    /// A header without fields, not valid.
    pub fn new(name: String) -> (r: Self)
        ensures
            r.name == name,
            !r.valid,
            r.fields@.len() == 0,
            r.wf(),
    {
        PacketHeader { name, valid: false, fields: Vec::new() }
    }

    /// Adds a field of `width` clear bits behind the others, unless the
    /// header would get larger than a bit vector can be.
    pub fn add_field(&mut self, name: String, width: usize) -> (r: bool)
        requires
            old(self).wf(),
        ensures
            final(self).wf(),
            final(self).name == old(self).name,
            final(self).valid == old(self).valid,
            r == (old(self).size_spec() + width <= max_bits()),
            r ==> final(self).fields@.len() == old(self).fields@.len() + 1
                && final(self).fields@.drop_last() == old(self).fields@
                && final(self).fields@.last().name == name
                && final(self).fields@.last().value@ == Seq::new(width as nat, |i: int| false),
            !r ==> final(self).fields == old(self).fields,
    {
        let size = self.size();
        if width > usize::MAX / 8 - size {
            return false;
        }
        self.fields.push(Field { name, value: Bits::zeroed(width) });
        assert(self.fields@.drop_last() =~= old(self).fields@);
        true
    }

    /// The size of the header in bits.
    pub fn size(&self) -> (r: usize)
        requires
            self.wf(),
        ensures
            r == self.size_spec(),
    {
        let mut total: usize = 0;
        let mut i: usize = 0;
        assert(self.fields@.take(0) =~= Seq::<Field>::empty());
        while i < self.fields.len()
            invariant
                i <= self.fields@.len(),
                self.wf(),
                total == size_of(self.fields@.take(i as int)),
            decreases self.fields@.len() - i,
        {
            proof {
                lemma_size_of_prefix(self.fields@, i + 1);
                assert(self.fields@.take(i + 1).drop_last() =~= self.fields@.take(i as int));
            }
            total = total + self.fields[i].value.len();
            i += 1;
        }
        assert(self.fields@.take(i as int) =~= self.fields@);
        total
    }

    /// The header as bits: exactly `size()` of them, the fields in their
    /// order.
    pub fn to_bitvec(&self) -> (r: Bits)
        requires
            self.wf(),
        ensures
            r@ == self.bits(),
            r@.len() == self.size_spec(),
    {
        let total = self.size();
        let mut x = Bits::zeroed(total);
        let mut off: usize = 0;
        let mut i: usize = 0;
        proof {
            assert(self.fields@.take(0) =~= Seq::<Field>::empty());
            assert(x@.subrange(0, 0) =~= Seq::<bool>::empty());
        }
        while i < self.fields.len()
            invariant
                i <= self.fields@.len(),
                total == size_of(self.fields@),
                off == size_of(self.fields@.take(i as int)),
                off <= total,
                x@.len() == total,
                x@.subrange(0, off as int) == bits_of_fields(self.fields@.take(i as int)),
                forall|k: int| off <= k < total ==> !x@[k],
            decreases self.fields@.len() - i,
        {
            let ghost before = x@;
            proof {
                lemma_size_of_prefix(self.fields@, i + 1);
                assert(self.fields@.take(i + 1).drop_last() =~= self.fields@.take(i as int));
            }
            let width = self.fields[i].value.len();
            x.or_at(off, &self.fields[i].value);
            proof {
                assert(x@.subrange(0, off + width) =~= before.subrange(0, off as int)
                    + self.fields@[i as int].value@);
            }
            off = off + width;
            i += 1;
        }
        proof {
            assert(self.fields@.take(i as int) =~= self.fields@);
            assert(x@.subrange(0, off as int) =~= x@);
            lemma_bits_of_fields_len(self.fields@);
        }
        x
    }

    /// Reads the header from `buf`, from bit `off` on, and marks it
    /// valid. The fields keep their names and widths.
    pub fn set(&mut self, buf: &Bits, off: usize)
        requires
            old(self).wf(),
            off + old(self).size_spec() <= buf@.len(),
        ensures
            final(self).name == old(self).name,
            final(self).valid,
            same_layout(final(self).fields@, old(self).fields@),
            final(self).size_spec() == old(self).size_spec(),
            final(self).bits() == buf@.subrange(off as int, off + old(self).size_spec()),
    {
        let ghost total = self.size_spec();
        let limit = buf.len();
        let mut fields: Vec<Field> = Vec::new();
        let mut pos: usize = off;
        let mut i: usize = 0;
        proof {
            assert(self.fields@.take(0) =~= Seq::<Field>::empty());
            assert(buf@.subrange(off as int, off as int) =~= Seq::<bool>::empty());
        }
        while i < self.fields.len()
            invariant
                i <= self.fields@.len(),
                self == old(self),
                total == size_of(self.fields@),
                off + total <= limit,
                limit == buf@.len(),
                fields@.len() == i,
                pos == off + size_of(self.fields@.take(i as int)),
                pos <= off + total,
                same_layout(fields@, self.fields@.take(i as int)),
                bits_of_fields(fields@) == buf@.subrange(off as int, pos as int),
            decreases self.fields@.len() - i,
        {
            let ghost before = fields@;
            proof {
                lemma_size_of_prefix(self.fields@, i + 1);
                assert(self.fields@.take(i + 1).drop_last() =~= self.fields@.take(i as int));
            }
            let width = self.fields[i].value.len();
            proof {
                assert(self.fields@.take(i + 1).last() == self.fields@[i as int]);
                assert(size_of(self.fields@.take(i + 1)) == size_of(self.fields@.take(i as int))
                    + width);
            }
            let value = buf.slice(pos, pos + width);
            fields.push(Field { name: self.fields[i].name.clone(), value });
            proof {
                assert(fields@.drop_last() =~= before);
                assert(buf@.subrange(off as int, pos + width) =~= buf@.subrange(
                    off as int,
                    pos as int,
                ) + buf@.subrange(pos as int, pos + width));
            }
            pos = pos + width;
            i += 1;
        }
        proof {
            assert(self.fields@.take(i as int) =~= self.fields@);
            lemma_same_layout_size(fields@, self.fields@);
        }
        self.fields = fields;
        self.valid = true;
    }
}

impl PacketStruct {
    /// The number of bits of the valid headers.
    pub open spec fn valid_size(&self) -> nat {
        valid_size_of(self.members@)
    }

    /// The bits of the valid headers, in the order of the members.
    pub open spec fn valid_bits(&self) -> Seq<bool> {
        valid_bits_of(self.members@)
    }

    /// The number of whole bytes that the valid headers took from the
    /// frame.
    pub open spec fn parsed_bytes(&self) -> nat {
        parsed_bytes_of(self.members@)
    }

    /// No header, and not the valid ones together, is larger than a bit
    /// vector can be.
    pub open spec fn wf(&self) -> bool {
        &&& forall|i: int| 0 <= i < self.members@.len() ==> (#[trigger] self.members@[i]).wf()
        &&& self.valid_size() <= max_bits()
    }

    /// Whether the sizes are such that the struct can be written out.
    pub fn fits(&self) -> (r: bool)
        ensures
            r == self.wf(),
    {
        let limit: usize = usize::MAX / 8;
        let mut total: usize = 0;
        let mut i: usize = 0;
        assert(self.members@.take(0) =~= Seq::<PacketHeader>::empty());
        while i < self.members.len()
            invariant
                i <= self.members@.len(),
                limit == max_bits(),
                forall|j: int| 0 <= j < i ==> (#[trigger] self.members@[j]).wf(),
                total == valid_size_of(self.members@.take(i as int)),
                total <= limit,
            decreases self.members@.len() - i,
        {
            proof {
                lemma_valid_prefix(self.members@, i + 1);
                assert(self.members@.take(i + 1).drop_last() =~= self.members@.take(i as int));
            }
            let mut size: usize = 0;
            let mut j: usize = 0;
            let ghost fields = self.members@[i as int].fields@;
            assert(fields.take(0) =~= Seq::<Field>::empty());
            while j < self.members[i].fields.len()
                invariant
                    i < self.members@.len(),
                    fields == self.members@[i as int].fields@,
                    j <= fields.len(),
                    limit == max_bits(),
                    size == size_of(fields.take(j as int)),
                    size <= limit,
                decreases fields.len() - j,
            {
                proof {
                    lemma_size_of_prefix(fields, j + 1);
                    assert(fields.take(j + 1).drop_last() =~= fields.take(j as int));
                }
                let width = self.members[i].fields[j].value.len();
                if width > limit - size {
                    return false;
                }
                size = size + width;
                j += 1;
            }
            assert(fields.take(j as int) =~= fields);
            if self.members[i].valid {
                if size > limit - total {
                    return false;
                }
                total = total + size;
            }
            i += 1;
        }
        assert(self.members@.take(i as int) =~= self.members@);
        true
    }

    /// The number of bits of the valid headers.
    pub fn valid_header_size(&self) -> (r: usize)
        requires
            self.wf(),
        ensures
            r == self.valid_size(),
    {
        let mut x: usize = 0;
        let mut i: usize = 0;
        assert(self.members@.take(0) =~= Seq::<PacketHeader>::empty());
        while i < self.members.len()
            invariant
                i <= self.members@.len(),
                self.wf(),
                x == valid_size_of(self.members@.take(i as int)),
            decreases self.members@.len() - i,
        {
            proof {
                lemma_valid_prefix(self.members@, i + 1);
                assert(self.members@.take(i + 1).drop_last() =~= self.members@.take(i as int));
            }
            if self.members[i].valid {
                x = x + self.members[i].size();
            }
            i += 1;
        }
        assert(self.members@.take(i as int) =~= self.members@);
        x
    }

    /// The number of bytes that the valid headers took from the frame:
    /// the whole bytes of each.
    pub fn parsed_size(&self) -> (r: usize)
        requires
            self.wf(),
        ensures
            r == self.parsed_bytes(),
    {
        let mut x: usize = 0;
        let mut i: usize = 0;
        assert(self.members@.take(0) =~= Seq::<PacketHeader>::empty());
        while i < self.members.len()
            invariant
                i <= self.members@.len(),
                self.wf(),
                x == parsed_bytes_of(self.members@.take(i as int)),
            decreases self.members@.len() - i,
        {
            proof {
                lemma_valid_prefix(self.members@, i + 1);
                lemma_valid_prefix(self.members@, self.members@.len() as int);
                assert(self.members@.take(i + 1).drop_last() =~= self.members@.take(i as int));
            }
            if self.members[i].valid {
                let size = self.members[i].size();
                assert(size >> 3 == size / 8) by (bit_vector);
                x = x + (size >> 3);
            }
            i += 1;
        }
        assert(self.members@.take(i as int) =~= self.members@);
        x
    }

    /// The valid headers as bits, in the order of the members: exactly
    /// `valid_header_size()` of them. A header that is not valid adds
    /// nothing.
    pub fn to_bitvec(&self) -> (r: Bits)
        requires
            self.wf(),
        ensures
            r@ == self.valid_bits(),
            r@.len() == self.valid_size(),
    {
        let total = self.valid_header_size();
        let mut x = Bits::zeroed(total);
        let mut off: usize = 0;
        let mut i: usize = 0;
        proof {
            assert(self.members@.take(0) =~= Seq::<PacketHeader>::empty());
            assert(x@.subrange(0, 0) =~= Seq::<bool>::empty());
        }
        while i < self.members.len()
            invariant
                i <= self.members@.len(),
                self.wf(),
                total == valid_size_of(self.members@),
                off == valid_size_of(self.members@.take(i as int)),
                off <= total,
                x@.len() == total,
                x@.subrange(0, off as int) == valid_bits_of(self.members@.take(i as int)),
                forall|k: int| off <= k < total ==> !x@[k],
            decreases self.members@.len() - i,
        {
            let ghost before = x@;
            proof {
                lemma_valid_prefix(self.members@, i + 1);
                assert(self.members@.take(i + 1).drop_last() =~= self.members@.take(i as int));
            }
            if self.members[i].valid {
                let part = self.members[i].to_bitvec();
                let size = part.len();
                x.or_at(off, &part);
                proof {
                    assert(x@.subrange(0, off + size) =~= before.subrange(0, off as int) + part@);
                }
                off = off + size;
            }
            i += 1;
        }
        proof {
            assert(self.members@.take(i as int) =~= self.members@);
            assert(x@.subrange(0, off as int) =~= x@);
        }
        x
    }
}

/// The first `8 * n` bits of a byte string are the bits of its first `n`
/// bytes.
pub proof fn lemma_bits_of_first_bytes(bytes: Seq<u8>, n: int)
    requires
        0 <= n <= bytes.len(),
    ensures
        bytes_to_bits(bytes).subrange(0, 8 * n) == bytes_to_bits(bytes.take(n)),
{
    assert(bytes_to_bits(bytes).subrange(0, 8 * n) =~= bytes_to_bits(bytes.take(n)));
}

/// A header that is read from the front of a byte string and written
/// out again gives the bytes it was read from, where its size is a whole
/// number of bytes.
pub proof fn lemma_header_round_trip(header: PacketHeader, bytes: Seq<u8>, written: Seq<u8>)
    requires
        header.size_spec() % 8 == 0,
        header.size_spec() <= 8 * bytes.len(),
        header.bits() == bytes_to_bits(bytes).subrange(0, header.size_spec() as int),
        bytes_hold(written, header.bits()),
    ensures
        written == bytes.take(header.size_spec() as int / 8),
{
    let n = header.size_spec() as int / 8;
    lemma_bits_of_first_bytes(bytes, n);
    lemma_bytes_round_trip(bytes.take(n), written);
}


/// Bits as text: `1` for a set bit, `0` for a clear one.
pub open spec fn bit_text(bits: Seq<bool>) -> Seq<char>
    decreases bits.len(),
{
    if bits.len() == 0 {
        Seq::empty()
    } else {
        bit_text(bits.drop_last()) + if bits.last() {
            "1"@
        } else {
            "0"@
        }
    }
}

/// One line for each field: its name, a colon, its bits.
pub open spec fn fields_text(fields: Seq<Field>) -> Seq<char>
    decreases fields.len(),
{
    if fields.len() == 0 {
        Seq::empty()
    } else {
        fields_text(fields.drop_last()) + fields.last().name@ + ": "@ + bit_text(
            fields.last().value@,
        ) + "\n"@
    }
}

/// For each header a line with its name and a colon, then its fields.
pub open spec fn members_text(members: Seq<PacketHeader>) -> Seq<char>
    decreases members.len(),
{
    if members.len() == 0 {
        Seq::empty()
    } else {
        members_text(members.drop_last()) + members.last().name@ + ":\n"@ + fields_text(
            members.last().fields@,
        )
    }
}

/// Appends the text of the bits to `out`.
fn append_bits(out: &mut String, value: &Bits)
    ensures
        final(out)@ == old(out)@ + bit_text(value@),
{
    let bytes = value.to_bytes();
    let n = value.len();
    let mut k: usize = 0;
    proof {
        assert(value@.take(0) =~= Seq::<bool>::empty());
        assert(out@ =~= old(out)@ + bit_text(value@.take(0)));
    }
    while k < n
        invariant
            k <= n,
            n == value@.len(),
            bytes_hold(bytes@, value@),
            out@ == old(out)@ + bit_text(value@.take(k as int)),
        decreases n - k,
    {
        let ghost before = out@;
        let byte = bytes[k / 8];
        let shift: u8 = (7 - k % 8) as u8;
        let bit = (byte >> shift) & 1 == 1;
        proof {
            assert(bit == bit_of_byte(byte, (k % 8) as int));
            assert(bit == value@[k as int]);
            assert(value@.take(k + 1).drop_last() =~= value@.take(k as int));
        }
        if bit {
            out.append("1");
        } else {
            out.append("0");
        }
        proof {
            assert(out@ =~= old(out)@ + bit_text(value@.take(k + 1)));
        }
        k += 1;
    }
    proof {
        assert(value@.take(n as int) =~= value@);
    }
}

/// Appends a line for each field to `out`.
fn append_fields(out: &mut String, fields: &Vec<Field>)
    ensures
        final(out)@ == old(out)@ + fields_text(fields@),
{
    let mut i: usize = 0;
    proof {
        assert(fields@.take(0) =~= Seq::<Field>::empty());
        assert(out@ =~= old(out)@ + fields_text(fields@.take(0)));
    }
    while i < fields.len()
        invariant
            i <= fields@.len(),
            out@ == old(out)@ + fields_text(fields@.take(i as int)),
        decreases fields@.len() - i,
    {
        proof {
            assert(fields@.take(i + 1).drop_last() =~= fields@.take(i as int));
        }
        out.append(fields[i].name.as_str());
        out.append(": ");
        append_bits(out, &fields[i].value);
        out.append("\n");
        proof {
            assert(out@ =~= old(out)@ + fields_text(fields@.take(i + 1)));
        }
        i += 1;
    }
    proof {
        assert(fields@.take(i as int) =~= fields@);
    }
}

impl PacketHeader {
    /// The header as text: a line for each field.
    pub fn dump(&self) -> (r: String)
        ensures
            r@ == fields_text(self.fields@),
    {
        let mut out = String::new();
        append_fields(&mut out, &self.fields);
        assert(out@ =~= fields_text(self.fields@));
        out
    }
}

impl PacketStruct {
    /// The struct as text: each header's name, then its fields.
    pub fn dump(&self) -> (r: String)
        ensures
            r@ == members_text(self.members@),
    {
        let mut out = String::new();
        let mut i: usize = 0;
        proof {
            assert(self.members@.take(0) =~= Seq::<PacketHeader>::empty());
            assert(out@ =~= members_text(self.members@.take(0)));
        }
        while i < self.members.len()
            invariant
                i <= self.members@.len(),
                out@ == members_text(self.members@.take(i as int)),
            decreases self.members@.len() - i,
        {
            proof {
                assert(self.members@.take(i + 1).drop_last() =~= self.members@.take(i as int));
            }
            out.append(self.members[i].name.as_str());
            out.append(":\n");
            append_fields(&mut out, &self.members[i].fields);
            proof {
                assert(out@ =~= members_text(self.members@.take(i + 1)));
            }
            i += 1;
        }
        proof {
            assert(self.members@.take(i as int) =~= self.members@);
        }
        out
    }
}

} // verus!
