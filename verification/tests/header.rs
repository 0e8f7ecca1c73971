use p4rs::bits::Bits;
use p4rs::header::{PacketHeader, PacketStruct};

fn ethernet() -> PacketHeader {
    let mut h = PacketHeader::new("ethernet".to_string());
    assert!(h.add_field("dst".to_string(), 48));
    assert!(h.add_field("src".to_string(), 48));
    assert!(h.add_field("ether_type".to_string(), 16));
    h
}

fn sidecar() -> PacketHeader {
    let mut h = PacketHeader::new("sidecar".to_string());
    assert!(h.add_field("code".to_string(), 8));
    assert!(h.add_field("ingress".to_string(), 8));
    assert!(h.add_field("egress".to_string(), 8));
    h
}

fn frame_bytes() -> Vec<u8> {
    vec![
        0x02, 0x00, 0x00, 0x00, 0x00, 0x01, 0x02, 0x00, 0x00, 0x00, 0x00, 0x02, 0x86, 0xdd, 0xaa,
        0xbb, 0xcc, 0xdd,
    ]
}

#[test]
fn bits_from_bytes_are_most_significant_first() {
    let b = Bits::from_bytes(&[0b1000_0001, 0b0100_0000]);
    assert_eq!(b.len(), 16);
    assert_eq!(b.to_bytes(), vec![0b1000_0001, 0b0100_0000]);
    let first = b.slice(0, 1);
    assert_eq!(first.len(), 1);
    assert_eq!(first.to_bytes()[0] & 0x80, 0x80);
    let second = b.slice(1, 8);
    assert_eq!(second.len(), 7);
    assert_eq!(second.to_bytes()[0] & 0xfe, 0b0000_0010);
    let ninth = b.slice(9, 10);
    assert_eq!(ninth.to_bytes()[0] & 0x80, 0x80);
}

#[test]
fn bits_zeroed_and_or() {
    let z = Bits::zeroed(12);
    assert_eq!(z.len(), 12);
    assert_eq!(z.to_bytes(), vec![0, 0]);
    let mut x = Bits::zeroed(24);
    x.or_at(8, &Bits::from_bytes(&[0xa5]));
    assert_eq!(x.to_bytes(), vec![0x00, 0xa5, 0x00]);
    // bits that are set stay set
    x.or_at(8, &Bits::from_bytes(&[0x0f, 0x80]));
    assert_eq!(x.to_bytes(), vec![0x00, 0xaf, 0x80]);
    let mut y = Bits::zeroed(16);
    y.or_at(4, &Bits::from_byte(0xff));
    assert_eq!(y.to_bytes(), vec![0x0f, 0xf0]);
    assert_eq!(Bits::from_byte(0x2a).to_bytes(), vec![0x2a]);
    assert_eq!(Bits::from_byte(0x2a).clone().to_bytes(), vec![0x2a]);
    assert_eq!(Bits::zeroed(0).to_bytes(), Vec::<u8>::new());
}

#[test]
fn header_size_is_the_sum_of_the_field_widths() {
    let mut h = ethernet();
    assert_eq!(h.size(), 112);
    assert_eq!(h.to_bitvec().len(), 112);
    // neither the contents nor the valid flag change it
    h.set(&Bits::from_bytes(&frame_bytes()), 0);
    assert!(h.valid);
    assert_eq!(h.size(), 112);
    h.valid = false;
    assert_eq!(h.size(), 112);
    assert_eq!(sidecar().size(), 24);
    assert_eq!(PacketHeader::new("none".to_string()).size(), 0);
}

#[test]
fn add_field_refuses_what_no_bit_vector_holds() {
    let mut h = PacketHeader::new("huge".to_string());
    assert!(!h.add_field("all".to_string(), usize::MAX));
    assert_eq!(h.fields.len(), 0);
    assert!(h.add_field("one".to_string(), 1));
    assert!(!h.add_field("rest".to_string(), usize::MAX / 8));
    assert_eq!(h.size(), 1);
}

#[test]
fn header_read_and_written_gives_the_same_bytes() {
    let frame = frame_bytes();
    let mut h = ethernet();
    h.set(&Bits::from_bytes(&frame), 0);
    assert_eq!(h.to_bitvec().to_bytes(), frame[..14].to_vec());
    assert_eq!(h.fields[0].value.to_bytes(), vec![0x02, 0, 0, 0, 0, 0x01]);
    assert_eq!(h.fields[1].value.to_bytes(), vec![0x02, 0, 0, 0, 0, 0x02]);
    assert_eq!(h.fields[2].value.to_bytes(), vec![0x86, 0xdd]);
    assert_eq!(h.fields[2].name, "ether_type");
    // from an offset inside the buffer
    let mut s = sidecar();
    s.set(&Bits::from_bytes(&frame), 14 * 8);
    assert_eq!(s.to_bitvec().to_bytes(), vec![0xaa, 0xbb, 0xcc]);
}

#[test]
fn struct_writes_the_valid_headers_only() {
    let frame = frame_bytes();
    let buf = Bits::from_bytes(&frame);
    let mut eth = ethernet();
    eth.set(&buf, 0);
    let mut side = sidecar();
    side.set(&buf, 112);
    let mut hdr = PacketStruct { members: vec![eth, side] };
    assert!(hdr.fits());
    assert_eq!(hdr.valid_header_size(), 136);
    assert_eq!(hdr.to_bitvec().len(), hdr.valid_header_size());
    assert_eq!(hdr.to_bitvec().to_bytes(), frame[..17].to_vec());
    assert_eq!(hdr.parsed_size(), 17);

    hdr.members[0].valid = false;
    assert_eq!(hdr.valid_header_size(), 24);
    assert_eq!(hdr.to_bitvec().len(), 24);
    assert_eq!(hdr.to_bitvec().to_bytes(), vec![0xaa, 0xbb, 0xcc]);
    assert_eq!(hdr.parsed_size(), 3);

    hdr.members[1].valid = false;
    assert_eq!(hdr.valid_header_size(), 0);
    assert_eq!(hdr.to_bitvec().len(), 0);
    assert_eq!(hdr.parsed_size(), 0);
}

#[test]
fn parsed_size_counts_whole_bytes_of_each_header() {
    let mut odd = PacketHeader::new("odd".to_string());
    assert!(odd.add_field("a".to_string(), 12));
    odd.valid = true;
    let mut other = PacketHeader::new("other".to_string());
    assert!(other.add_field("b".to_string(), 12));
    other.valid = true;
    let hdr = PacketStruct { members: vec![odd, other] };
    assert_eq!(hdr.valid_header_size(), 24);
    assert_eq!(hdr.parsed_size(), 2);
}

#[test]
fn dump_lists_the_fields() {
    let mut h = PacketHeader::new("tiny".to_string());
    assert!(h.add_field("flag".to_string(), 1));
    assert!(h.add_field("code".to_string(), 4));
    assert_eq!(h.dump(), "flag: 0\ncode: 0000\n");
    h.set(&Bits::from_bytes(&[0b1010_1000]), 0);
    assert_eq!(h.dump(), "flag: 1\ncode: 0101\n");
    let hdr = PacketStruct { members: vec![h, PacketHeader::new("empty".to_string())] };
    assert_eq!(hdr.dump(), "tiny:\nflag: 1\ncode: 0101\nempty:\n");
}
