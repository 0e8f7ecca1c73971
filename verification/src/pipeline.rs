//! What the pipeline executor decides for one frame: the port numbers,
//! the states a frame passes through, the bytes that leave, and the
//! counters of a batch. The rings and the calls of parser and control
//! belong to the caller.

use vstd::prelude::*;
use crate::bits::{bit_of_byte, bytes_to_bits, lemma_byte_by_bits, Bits};
use crate::header::PacketStruct;

verus! {

/// An Ethernet frame to be put on a ring.
pub struct Frame<'a> {
    pub dst: [u8; 6],
    pub src: [u8; 6],
    pub ethertype: u16,
    pub payload: &'a [u8],
}

/// Appends the bytes of `src` from `from` up to `to` to `out`.
fn append(out: &mut Vec<u8>, src: &[u8], from: usize, to: usize)
    requires
        from <= to <= src@.len(),
    ensures
        final(out)@ == old(out)@ + src@.subrange(from as int, to as int),
{
    let mut i: usize = from;
    assert(src@.subrange(from as int, from as int) =~= Seq::<u8>::empty());
    assert(out@ =~= old(out)@ + src@.subrange(from as int, from as int));
    while i < to
        invariant
            from <= i <= to <= src@.len(),
            out@ == old(out)@ + src@.subrange(from as int, i as int),
        decreases to - i,
    {
        out.push(src[i]);
        assert(out@ =~= old(out)@ + src@.subrange(from as int, i + 1));
        i += 1;
    }
}

impl<'a> Frame<'a> {
    /// A frame of these parts.
    pub fn new(dst: [u8; 6], src: [u8; 6], ethertype: u16, payload: &'a [u8]) -> (r: Self)
        ensures
            r.dst == dst,
            r.src == src,
            r.ethertype == ethertype,
            r.payload == payload,
    {
        Self { dst, src, ethertype, payload }
    }

    /// The frame on the wire: destination, source, the ethertype with its
    /// high byte first, then the payload.
    pub open spec fn wire(&self) -> Seq<u8> {
        self.dst@ + self.src@ + seq![(self.ethertype / 256) as u8, (self.ethertype % 256) as u8]
            + self.payload@
    }

    /// The bytes of the frame on the wire.
    pub fn to_bytes(&self) -> (r: Vec<u8>)
        ensures
            r@ == self.wire(),
            r@.len() == 14 + self.payload@.len(),
    {
        let mut out: Vec<u8> = Vec::new();
        append(&mut out, self.dst.as_slice(), 0, 6);
        append(&mut out, self.src.as_slice(), 0, 6);
        let e = self.ethertype;
        assert(e >> 8 == e / 256 && e & 0xff == e % 256) by (bit_vector);
        out.push((e >> 8) as u8);
        out.push((e & 0xff) as u8);
        append(&mut out, self.payload, 0, self.payload.len());
        assert(out@ =~= self.wire());
        out
    }
}

/// The port number of the ingress ring with index `i`: ports count from
/// 1, in eight bits.
pub fn ingress_port(i: usize) -> (r: u8)
    requires
        i < usize::MAX,
    ensures
        r == (i + 1) % 256,
{
    ((i + 1) % 256) as u8
}

/// The port field of the metadata for a port number.
pub fn port_bits(port: u8) -> (r: Bits)
    ensures
        r@ == bytes_to_bits(seq![port]),
        r@.len() == 8,
{
    Bits::from_byte(port)
}

/// The port number in a port field: its first byte. Where the field has
/// fewer than eight bits, the low bits of the number are free.
pub fn read_port(port: &Bits) -> (r: u8)
    requires
        port@.len() > 0,
    ensures
        forall|k: int| 0 <= k < 8 && k < port@.len() ==> bit_of_byte(r, k) == port@[k],
{
    let bytes = port.to_bytes();
    let r = bytes[0];
    assert forall|k: int| 0 <= k < 8 && k < port@.len() implies bit_of_byte(r, k) == port@[k] by {
        assert(k / 8 == 0 && k % 8 == k);
    }
    r
}

/// A port number that is written into a port field and read again is the
/// same number.
pub proof fn lemma_port_round_trip(port: u8, field: Seq<bool>, read: u8)
    requires
        field == bytes_to_bits(seq![port]),
        forall|k: int| 0 <= k < 8 && k < field.len() ==> bit_of_byte(read, k) == field[k],
    ensures
        read == port,
{
    assert forall|k: int| 0 <= k < 8 implies bit_of_byte(read, k) == bit_of_byte(port, k) by {
        assert(k / 8 == 0 && k % 8 == k);
        assert(field[k] == bit_of_byte(seq![port][k / 8], k % 8));
    }
    lemma_byte_by_bits(read, port);
}

/// Where a frame stands.
#[derive(Debug, Clone, Copy, PartialEq, Eq, Structural)]
pub enum FrameState {
    /// Taken from an ingress ring.
    Acquired,
    /// The parser accepted it.
    Parsed,
    /// The parser rejected it: dropped.
    Rejected,
    /// Control ran and left this egress port.
    Controlled(u8),
    /// Sent to this port, which is not 0.
    Emitted(u8),
    /// Control left port 0: dropped.
    Missed,
}

/// What happens to a frame.
#[derive(Debug, Clone, Copy, PartialEq, Eq, Structural)]
pub enum FrameEvent {
    /// The parser returned, with its answer.
    ParserDone(bool),
    /// Control returned, with the egress port it left.
    ControlDone(u8),
    /// The executor picks the egress ring.
    EgressSelected,
}

impl FrameState {
    /// Nothing follows this state.
    pub open spec fn is_final(&self) -> bool {
        *self is Rejected || *self is Emitted || *self is Missed
    }

    /// The egress ring that gets the frame, if one does.
    pub open spec fn egress_index(&self) -> Option<int> {
        match *self {
            FrameState::Emitted(port) => Some(port - 1),
            _ => None,
        }
    }
}

/// The state that follows `state` on `event`, if the event can happen
/// there.
pub open spec fn next_state(state: FrameState, event: FrameEvent) -> Option<FrameState> {
    match (state, event) {
        (FrameState::Acquired, FrameEvent::ParserDone(accept)) => Some(
            if accept {
                FrameState::Parsed
            } else {
                FrameState::Rejected
            },
        ),
        (FrameState::Parsed, FrameEvent::ControlDone(port)) => Some(FrameState::Controlled(port)),
        (FrameState::Controlled(port), FrameEvent::EgressSelected) => Some(
            if port == 0 {
                FrameState::Missed
            } else {
                FrameState::Emitted(port)
            },
        ),
        _ => None,
    }
}

/// The state that follows `state` on `event`; `None` where the event
/// cannot happen there.
pub fn step(state: FrameState, event: FrameEvent) -> (r: Option<FrameState>)
    ensures
        r == next_state(state, event),
{
    match state {
        FrameState::Acquired => match event {
            FrameEvent::ParserDone(accept) => if accept {
                Some(FrameState::Parsed)
            } else {
                Some(FrameState::Rejected)
            },
            _ => None,
        },
        FrameState::Parsed => match event {
            FrameEvent::ControlDone(port) => Some(FrameState::Controlled(port)),
            _ => None,
        },
        FrameState::Controlled(port) => match event {
            FrameEvent::EgressSelected => if port == 0 {
                Some(FrameState::Missed)
            } else {
                Some(FrameState::Emitted(port))
            },
            _ => None,
        },
        _ => None,
    }
}

/// Nothing follows a final state, and a frame is emitted only to a port
/// that is not 0.
pub proof fn lemma_final_states(state: FrameState, event: FrameEvent)
    ensures
        state.is_final() ==> next_state(state, event) is None,
        next_state(state, event) matches Some(FrameState::Emitted(port)) ==> port != 0,
        next_state(state, event) matches Some(next) ==> (next.egress_index() is Some
            <==> next is Emitted),
{
}

/// Whether `wire` is the header bits in whole bytes, each byte's most
/// significant bit first, followed by `tail`.
pub open spec fn is_wire(wire: Seq<u8>, header_bits: Seq<bool>, tail: Seq<u8>) -> bool {
    &&& wire.len() == header_bits.len() / 8 + tail.len()
    &&& wire.skip((header_bits.len() / 8) as int) == tail
    &&& forall|i: int|
        0 <= i < 8 * (header_bits.len() / 8) ==> bit_of_byte(wire[i / 8], i % 8)
            == #[trigger] header_bits[i]
}

/// The bytes that leave for a frame: the valid headers as they are now,
/// then what stood in the frame behind the parsed bytes.
pub fn emit(headers: &PacketStruct, frame: &[u8], parsed_size: usize) -> (r: Vec<u8>)
    requires
        headers.wf(),
        parsed_size <= frame@.len(),
    ensures
        is_wire(r@, headers.valid_bits(), frame@.skip(parsed_size as int)),
        r@.len() == headers.valid_size() / 8 + (frame@.len() - parsed_size),
{
    let bv = headers.to_bitvec();
    let raw = bv.to_bytes();
    let size = bv.len();
    assert(size >> 3 == size / 8) by (bit_vector);
    let n = size >> 3;
    let mut out: Vec<u8> = Vec::new();
    append(&mut out, raw.as_slice(), 0, n);
    append(&mut out, frame, parsed_size, frame.len());
    proof {
        let tail = frame@.skip(parsed_size as int);
        assert(frame@.subrange(parsed_size as int, frame@.len() as int) =~= tail);
        assert(out@.skip(n as int) =~= tail);
        assert forall|i: int| 0 <= i < 8 * n implies bit_of_byte(out@[i / 8], i % 8)
            == #[trigger] bv@[i] by {
            assert(out@[i / 8] == raw@[i / 8]);
        }
    }
    out
}

/// The counters of one pass over an ingress ring.
pub struct Batch {
    /// The frames taken from the ingress ring.
    pub frames_in: usize,
    /// The frames written to each egress ring.
    pub egress_count: Vec<usize>,
}

impl Batch {
    /// The counters before the first frame.
    pub fn new(egress: usize) -> (r: Self)
        ensures
            r.frames_in == 0,
            r.egress_count@ == Seq::new(egress as nat, |i: int| 0usize),
    {
        let mut egress_count: Vec<usize> = Vec::new();
        let mut i: usize = 0;
        while i < egress
            invariant
                i <= egress,
                egress_count@ == Seq::new(i as nat, |k: int| 0usize),
            decreases egress - i,
        {
            egress_count.push(0);
            assert(egress_count@ =~= Seq::new((i + 1) as nat, |k: int| 0usize));
            i += 1;
        }
        Batch { frames_in: 0, egress_count }
    }

    /// Counts a frame that has reached a final state: one more frame in,
    /// and one more out on its ring where it was emitted.
    pub fn record(&mut self, state: FrameState)
        requires
            state.is_final(),
            old(self).frames_in < usize::MAX,
            state matches FrameState::Emitted(port) ==> 0 < port <= old(self).egress_count@.len()
                && old(self).egress_count@[port - 1] < usize::MAX,
        ensures
            final(self).frames_in == old(self).frames_in + 1,
            final(self).egress_count@ == match state {
                FrameState::Emitted(port) => old(self).egress_count@.update(
                    port - 1,
                    (old(self).egress_count@[port - 1] + 1) as usize,
                ),
                _ => old(self).egress_count@,
            },
    {
        self.frames_in = self.frames_in + 1;
        match state {
            FrameState::Emitted(port) => {
                let j: usize = (port - 1) as usize;
                let n = self.egress_count[j];
                self.egress_count.set(j, n + 1);
            },
            _ => {},
        }
    }
}

} // verus!
