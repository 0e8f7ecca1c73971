use p4rs::bits::Bits;
use p4rs::header::{PacketHeader, PacketStruct};
use p4rs::pipeline::FrameEvent::{ControlDone, EgressSelected, ParserDone};
use p4rs::pipeline::FrameState::{Acquired, Controlled, Emitted, Missed, Parsed, Rejected};
use p4rs::pipeline::{
    emit, ingress_port, port_bits, read_port, step, Batch, Frame, FrameEvent, FrameState,
};

fn headers() -> PacketStruct {
    let mut eth = PacketHeader::new("ethernet".to_string());
    assert!(eth.add_field("dst".to_string(), 48));
    assert!(eth.add_field("src".to_string(), 48));
    assert!(eth.add_field("ether_type".to_string(), 16));
    PacketStruct { members: vec![eth] }
}

/// Accepts a frame that holds a whole Ethernet header.
fn parse(frame: &[u8], hdr: &mut PacketStruct) -> bool {
    if frame.len() < 14 {
        return false;
    }
    hdr.members[0].set(&Bits::from_bytes(frame), 0);
    true
}

/// Sends what came in on port 1 to port 2 with the addresses swapped, and
/// drops the rest.
fn control(hdr: &mut PacketStruct, ingress: &Bits, egress: &mut Bits) {
    if read_port(ingress) == 1 {
        let dst = hdr.members[0].fields[0].value.clone();
        let src = hdr.members[0].fields[1].value.clone();
        hdr.members[0].fields[0].value = src;
        hdr.members[0].fields[1].value = dst;
        *egress = port_bits(2);
    }
}

struct Rings {
    egress: Vec<Vec<Vec<u8>>>,
    consumed: Vec<usize>,
    states: Vec<FrameState>,
}

/// One pass over every ingress ring, as the executor makes it.
fn pass(ingress: &Vec<Vec<Vec<u8>>>, egress: usize) -> Rings {
    let mut out = Rings { egress: vec![Vec::new(); egress], consumed: Vec::new(), states: Vec::new() };
    for (i, ring) in ingress.iter().enumerate() {
        let mut batch = Batch::new(egress);
        for frame in ring {
            let mut hdr = headers();
            let ingress_meta = port_bits(ingress_port(i));
            let mut egress_meta = port_bits(0);
            let mut state = FrameState::Acquired;
            state = step(state, FrameEvent::ParserDone(parse(frame, &mut hdr))).unwrap();
            if state == FrameState::Parsed {
                let parsed_size = hdr.parsed_size();
                control(&mut hdr, &ingress_meta, &mut egress_meta);
                state = step(state, FrameEvent::ControlDone(read_port(&egress_meta))).unwrap();
                state = step(state, FrameEvent::EgressSelected).unwrap();
                if let FrameState::Emitted(port) = state {
                    out.egress[usize::from(port) - 1].push(emit(&hdr, frame, parsed_size));
                }
            }
            batch.record(state);
            out.states.push(state);
        }
        out.consumed.push(batch.frames_in);
        for (j, n) in batch.egress_count.iter().enumerate() {
            assert_eq!(out.egress[j].len() >= *n, true);
        }
    }
    out
}

fn good_frame() -> Vec<u8> {
    let payload = [0xde, 0xad, 0xbe, 0xef, 0x01];
    Frame::new([2, 0, 0, 0, 0, 1], [2, 0, 0, 0, 0, 2], 0x86dd, &payload).to_bytes()
}

#[test]
fn frame_bytes_are_dst_src_ethertype_payload() {
    let payload = [9u8, 8, 7];
    let f = Frame::new([1, 2, 3, 4, 5, 6], [7, 8, 9, 10, 11, 12], 0x0800, &payload);
    assert_eq!(
        f.to_bytes(),
        vec![1, 2, 3, 4, 5, 6, 7, 8, 9, 10, 11, 12, 0x08, 0x00, 9, 8, 7]
    );
    let empty = Frame::new([0; 6], [0xff; 6], 0x86dd, &[]);
    assert_eq!(empty.to_bytes().len(), 14);
    assert_eq!(empty.to_bytes()[12..], [0x86, 0xdd]);
}

#[test]
fn pipeline_parse_reject() {
    // too short for an Ethernet header
    let ingress = vec![vec![vec![1u8, 2, 3]]];
    let out = pass(&ingress, 2);
    assert_eq!(out.states, vec![FrameState::Rejected]);
    assert!(out.egress.iter().all(|ring| ring.is_empty()));
    assert_eq!(out.consumed, vec![1]);
}

#[test]
fn pipeline_forwarding() {
    let frame = good_frame();
    let ingress = vec![vec![frame.clone()], vec![]];
    let out = pass(&ingress, 2);
    assert_eq!(out.states, vec![FrameState::Emitted(2)]);
    assert!(out.egress[0].is_empty());
    assert_eq!(out.egress[1].len(), 1);
    let wire = &out.egress[1][0];
    // 112 header bits, 14 parsed bytes
    assert_eq!(wire.len(), 112 / 8 + (frame.len() - 14));
    assert_eq!(
        wire,
        &vec![2, 0, 0, 0, 0, 2, 2, 0, 0, 0, 0, 1, 0x86, 0xdd, 0xde, 0xad, 0xbe, 0xef, 0x01]
    );
    assert_eq!(out.consumed, vec![1, 0]);
}

#[test]
fn pipeline_miss_drops_the_frame() {
    // the frame comes in on port 2: control leaves port 0
    let ingress = vec![vec![], vec![good_frame()]];
    let out = pass(&ingress, 2);
    assert_eq!(out.states, vec![FrameState::Missed]);
    assert!(out.egress.iter().all(|ring| ring.is_empty()));
    assert_eq!(out.consumed, vec![0, 1]);
}

#[test]
fn ports_count_from_one() {
    assert_eq!(ingress_port(0), 1);
    assert_eq!(ingress_port(1), 2);
    assert_eq!(ingress_port(254), 255);
    assert_eq!(ingress_port(255), 0);
    assert_eq!(read_port(&port_bits(7)), 7);
    assert_eq!(port_bits(7).len(), 8);
    assert_eq!(read_port(&port_bits(0)), 0);
    assert_eq!(read_port(&Bits::from_bytes(&[3, 9])), 3);
}

#[test]
fn frame_states_follow_the_pipeline() {
    assert_eq!(step(Acquired, ParserDone(true)), Some(Parsed));
    assert_eq!(step(Acquired, ParserDone(false)), Some(Rejected));
    assert_eq!(step(Parsed, ControlDone(3)), Some(Controlled(3)));
    assert_eq!(step(Controlled(3), EgressSelected), Some(Emitted(3)));
    assert_eq!(step(Controlled(0), EgressSelected), Some(Missed));
    assert_eq!(step(Acquired, EgressSelected), None);
    assert_eq!(step(Acquired, ControlDone(1)), None);
    assert_eq!(step(Parsed, ParserDone(true)), None);
    assert_eq!(step(Controlled(1), ControlDone(1)), None);
    for last in [Rejected, Missed, Emitted(1)] {
        assert_eq!(step(last, ParserDone(true)), None);
        assert_eq!(step(last, ControlDone(1)), None);
        assert_eq!(step(last, EgressSelected), None);
    }
}

#[test]
fn emit_writes_headers_then_payload_tail() {
    let frame = good_frame();
    let mut hdr = headers();
    assert!(parse(&frame, &mut hdr));
    assert_eq!(emit(&hdr, &frame, 14), frame);
    // a header that control made invalid is stripped
    hdr.members[0].valid = false;
    assert_eq!(emit(&hdr, &frame, 14), vec![0xde, 0xad, 0xbe, 0xef, 0x01]);
    assert_eq!(emit(&hdr, &frame, frame.len()), Vec::<u8>::new());
}

#[test]
fn batch_counts_frames_and_emissions() {
    let mut b = Batch::new(3);
    assert_eq!(b.frames_in, 0);
    assert_eq!(b.egress_count, vec![0, 0, 0]);
    b.record(FrameState::Rejected);
    b.record(FrameState::Emitted(2));
    b.record(FrameState::Missed);
    b.record(FrameState::Emitted(2));
    b.record(FrameState::Emitted(3));
    assert_eq!(b.frames_in, 5);
    assert_eq!(b.egress_count, vec![0, 2, 1]);
}
