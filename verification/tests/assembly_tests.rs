use drone_network::assembler::Assembler;
use drone_network::fragmentation::{fragment_message, make_fragment, payload_before_nul};
use drone_network::packet::{Ack, Packet, PacketType, SourceRoutingHeader};
use drone_network::session_assembler::{Assembler as SessionAssembler, AssemblyStep};

fn message_of(len: usize) -> Vec<u8> {
    (0..len).map(|i| (i % 251) as u8 + 1).collect()
}

#[test]
fn a_short_message_is_one_padded_fragment() {
    let bytes = vec![7u8, 8, 9];
    let packets = fragment_message(&bytes, &vec![1, 11, 21], 42);
    assert_eq!(packets.len(), 1);
    match &packets[0].pack_type {
        PacketType::MsgFragment(f) => {
            assert_eq!(f.fragment_index, 0);
            assert_eq!(f.total_n_fragments, 1);
            assert_eq!(f.length, 3);
            assert_eq!(&f.data[..3], &[7, 8, 9]);
            assert!(f.data[3..].iter().all(|b| *b == 0));
        },
        _ => panic!("expected a fragment"),
    }
    assert_eq!(packets[0].routing_header.hop_index, 1);
    assert_eq!(packets[0].routing_header.hops, vec![1, 11, 21]);
    assert_eq!(packets[0].session_id, 42);
}

#[test]
fn fragment_count_and_last_length() {
    let bytes = message_of(300);
    let packets = fragment_message(&bytes, &vec![1, 2], 5);
    assert_eq!(packets.len(), 3);
    let lengths: Vec<u8> = packets
        .iter()
        .map(|p| match &p.pack_type {
            PacketType::MsgFragment(f) => f.length,
            _ => 0,
        })
        .collect();
    assert_eq!(lengths, vec![128, 128, 44]);
    let f = make_fragment(&bytes, 1, 3);
    assert_eq!(f.fragment_index, 1);
    assert_eq!(f.data[0], bytes[128]);
}

#[test]
fn exact_multiple_of_fragment_size() {
    let bytes = message_of(256);
    assert_eq!(fragment_message(&bytes, &vec![1, 2], 0).len(), 2);
    assert_eq!(fragment_message(&Vec::new(), &vec![1, 2], 0).len(), 0);
}

#[test]
fn fragments_in_order_reassemble_to_the_padded_message() {
    let bytes = message_of(300);
    let packets = fragment_message(&bytes, &vec![1, 11, 21], 9);
    let mut assembler = Assembler::new(Vec::new());
    let mut out = None;
    for (i, p) in packets.iter().enumerate() {
        let r = assembler.handle_packet(p);
        if i + 1 < packets.len() {
            assert!(r.is_none());
        } else {
            out = r;
        }
    }
    let data = out.expect("the last fragment completes the message");
    assert_eq!(data.len(), 384);
    assert_eq!(&data[..300], &bytes[..]);
    assert!(data[300..].iter().all(|b| *b == 0));
    assert_eq!(payload_before_nul(&data), bytes);
}

#[test]
fn single_fragment_message_is_handed_out_at_once() {
    let bytes = b"{\"x\":1}".to_vec();
    let packets = fragment_message(&bytes, &vec![1, 2], 3);
    let mut assembler = Assembler::new(Vec::new());
    let data = assembler.handle_packet(&packets[0]).unwrap();
    assert_eq!(payload_before_nul(&data), bytes);
    assert!(assembler.assemblies.is_empty());
}

#[test]
fn sessions_are_assembled_apart() {
    let a = message_of(200);
    let b: Vec<u8> = message_of(200).iter().map(|x| x.wrapping_add(3).max(1)).collect();
    let pa = fragment_message(&a, &vec![1, 2], 1);
    let pb = fragment_message(&b, &vec![1, 2], 2);
    let mut assembler = Assembler::new(Vec::new());
    assert!(assembler.handle_packet(&pa[0]).is_none());
    assert!(assembler.handle_packet(&pb[0]).is_none());
    let rb = assembler.handle_packet(&pb[1]).unwrap();
    let ra = assembler.handle_packet(&pa[1]).unwrap();
    assert_eq!(payload_before_nul(&ra), a);
    assert_eq!(payload_before_nul(&rb), b);
}

#[test]
fn packets_other_than_fragments_change_nothing() {
    let mut assembler = Assembler::new(Vec::new());
    let ack = Packet {
        pack_type: PacketType::Ack(Ack { fragment_index: 0 }),
        routing_header: SourceRoutingHeader::new(vec![1, 2], 1),
        session_id: 4,
    };
    assert!(assembler.handle_packet(&ack).is_none());
    assert!(assembler.assemblies.is_empty());
}

#[test]
fn payload_stops_at_first_zero() {
    assert_eq!(payload_before_nul(&vec![5, 6, 0, 7]), vec![5, 6]);
    assert_eq!(payload_before_nul(&vec![0, 1]), Vec::<u8>::new());
    assert_eq!(payload_before_nul(&vec![1, 2, 3]), vec![1, 2, 3]);
}

#[test]
fn session_assembler_gathers_its_session() {
    let bytes = message_of(200);
    let packets = fragment_message(&bytes, &vec![1, 2], 77);
    let mut assembler = SessionAssembler::new(77);
    assert_eq!(assembler.session_id(), 77);
    assert!(matches!(assembler.absorb(&packets[0]), AssemblyStep::Continue));
    match assembler.absorb(&packets[1]) {
        AssemblyStep::Done(d) => {
            assert_eq!(d.len(), 256);
            assert_eq!(&d[..200], &bytes[..]);
        },
        _ => panic!("expected the end of the assembly"),
    }
}

#[test]
fn session_assembler_refuses_other_sessions_and_types() {
    let mut assembler = SessionAssembler::new(1);
    let other = fragment_message(&vec![1, 2, 3], &vec![1, 2], 2);
    match assembler.absorb(&other[0]) {
        AssemblyStep::Failed(e) => assert_eq!(e, "Session ID mismatch"),
        _ => panic!("expected a failure"),
    }
    let ack = Packet::new_ack(SourceRoutingHeader::new(vec![1, 2], 1), 1, 0);
    match assembler.absorb(&ack) {
        AssemblyStep::Failed(e) => assert_eq!(e, "Unexpected packet type"),
        _ => panic!("expected a failure"),
    }
    assert!(assembler.gathered().is_empty());
}

fn fragment_packet(session: u64, index: u64, total: u64, fill: u8) -> Packet {
    let fragment = drone_network::packet::Fragment { fragment_index: index, total_n_fragments: total, length: 128, data: [fill; 128] };
    Packet::new_fragment(SourceRoutingHeader::new(vec![1, 2], 1), session, fragment)
}

#[test]
fn any_fragments_of_one_session_reassemble_in_order() {
    let mut assembler = Assembler::new(Vec::new());
    assert_eq!(assembler.handle_packet(&fragment_packet(3, 0, 3, 1)), None);
    assert_eq!(assembler.handle_packet(&fragment_packet(3, 1, 3, 2)), None);
    let whole = assembler.handle_packet(&fragment_packet(3, 2, 3, 3)).expect("the last fragment completes the data");
    assert_eq!(whole.len(), 384);
    assert!(whole[..128].iter().all(|b| *b == 1));
    assert!(whole[128..256].iter().all(|b| *b == 2));
    assert!(whole[256..].iter().all(|b| *b == 3));
}

#[test]
fn a_single_fragment_is_handed_out_at_once() {
    let mut assembler = Assembler::new(Vec::new());
    let whole = assembler.handle_packet(&fragment_packet(8, 0, 1, 5)).expect("one fragment is the whole data");
    assert_eq!(whole, vec![5u8; 128]);
    assert_eq!(assembler.handle_packet(&fragment_packet(8, 0, 0, 5)), None);
}

#[test]
fn trailing_zeros_are_dropped_however_many() {
    let text = b"{\"a\":1}".to_vec();
    for z in 0..130 {
        let mut data = text.clone();
        data.extend(std::iter::repeat(0u8).take(z));
        assert_eq!(payload_before_nul(&data), text);
    }
}
