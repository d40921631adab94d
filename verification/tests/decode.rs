use tuishark::ethernet::{Ethernet, Ethertype};
use tuishark::ipv4::IPv4;
use tuishark::pkt::{CaptureBuilder, Layer, LayerHint, Packet, LINKTYPE_ETHERNET};
use tuishark::tcp::Tcp;
use tuishark::undecoded::Undecoded;
use tuishark::util::{four_bytes_to_u32, two_bytes_to_u16};

fn ethernet_header(ethertype: [u8; 2]) -> Vec<u8> {
    let mut v = vec![0xaa, 0xbb, 0xcc, 0xdd, 0xee, 0xff, 0x11, 0x22, 0x33, 0x44, 0x55, 0x66];
    v.extend_from_slice(&ethertype);
    v
}

fn ipv4_header(protocol: u8) -> Vec<u8> {
    let mut v = vec![0x45, 0x00, 0x00, 0x30, 0x12, 0x34, 0x40, 0x00, 0x40, protocol, 0xbe, 0xef];
    v.extend_from_slice(&[1, 2, 3, 4]); // source
    v.extend_from_slice(&[5, 6, 7, 8]); // destination
    v
}

fn tcp_header() -> Vec<u8> {
    vec![
        0x01, 0xbb, // source port 443
        0xd4, 0x31, // dest port 54321
        0x00, 0x00, 0x00, 0x2a, // sequence 42
        0x00, 0x00, 0x00, 0x07, // ack 7
        0x50, // data offset 5
        0x18, // flags PSH|ACK
        0xff, 0xff, // window
        0x12, 0x34, // checksum
        0x00, 0x00, // urgent pointer
    ]
}

fn packet_from(bytes: Vec<u8>, linktype: i32) -> Packet {
    let mut b = CaptureBuilder::new();
    b.on_link_type_header(linktype);
    b.on_data_record(bytes);
    b.packets.pop().unwrap()
}

#[test]
fn big_endian_readers() {
    assert_eq!(two_bytes_to_u16(&[0x12, 0x34]), 0x1234);
    assert_eq!(two_bytes_to_u16(&[0x00, 0x01]), 1);
    assert_eq!(four_bytes_to_u32(&[0xde, 0xad, 0xbe, 0xef]), 0xdeadbeef);
    assert_eq!(four_bytes_to_u32(&[0, 0, 0, 9]), 9);
}

#[test]
fn ethernet_from_bytes_decodes_header() {
    let bytes = ethernet_header([0x08, 0x00]);
    let (eth, consumed, hint) = Ethernet::from_bytes(0, &bytes);
    assert_eq!(eth.destination_mac, [0xaa, 0xbb, 0xcc, 0xdd, 0xee, 0xff]);
    assert_eq!(eth.source_mac, [0x11, 0x22, 0x33, 0x44, 0x55, 0x66]);
    assert_eq!(eth.ether_type_raw, [0x08, 0x00]);
    assert_eq!(eth.ether_type, Ethertype::IPV4);
    assert_eq!(consumed, 14);
    assert_eq!(hint, LayerHint::IPv4);
}

#[test]
fn ethernet_unknown_ethertype_hints_undecoded() {
    let bytes = ethernet_header([0x08, 0x06]);
    let (eth, consumed, hint) = Ethernet::from_bytes(0, &bytes);
    assert_eq!(eth.ether_type, Ethertype::Unidentified);
    assert_eq!(consumed, 14);
    assert_eq!(hint, LayerHint::Undecoded);
}

#[test]
fn ipv4_from_bytes_decodes_header() {
    let bytes = ipv4_header(6);
    let (ip, consumed, hint) = IPv4::from_bytes(14, &bytes);
    assert_eq!(ip.version, 4);
    assert_eq!(ip.header_len, 5);
    assert_eq!(ip.diffserv, 0);
    assert_eq!(ip.congestion_notification, 0);
    assert_eq!(ip.total_length, 0x30);
    assert_eq!(ip.identification, 0x1234);
    assert_eq!(ip.flags, 2);
    assert_eq!(ip.fragment_offset, 0);
    assert_eq!(ip.ttl, 64);
    assert_eq!(ip.protocol, 6);
    assert_eq!(ip.header_xsum, 0xbeef);
    assert_eq!(ip.source_addr, [1, 2, 3, 4]);
    assert_eq!(ip.dest_addr, [5, 6, 7, 8]);
    assert_eq!(consumed, 20);
    assert_eq!(hint, LayerHint::Tcp);
}

#[test]
fn ipv4_non_tcp_protocol_hints_undecoded() {
    let bytes = ipv4_header(17);
    let (_, consumed, hint) = IPv4::from_bytes(14, &bytes);
    assert_eq!(consumed, 20);
    assert_eq!(hint, LayerHint::Undecoded);
}

#[test]
fn tcp_from_bytes_decodes_header() {
    let bytes = tcp_header();
    let (tcp, consumed, hint) = Tcp::from_bytes(34, &bytes);
    assert_eq!(tcp.source_port, 443);
    assert_eq!(tcp.dest_port, 54321);
    assert_eq!(tcp.sequence_num, 42);
    assert_eq!(tcp.ack_num, 7);
    assert_eq!(tcp.header_len, 5);
    assert_eq!(tcp.resrv_0, 0);
    assert_eq!(tcp.flags, 0x18);
    assert_eq!(tcp.window_size, 0xffff);
    assert_eq!(tcp.tcp_xsum, 0x1234);
    assert_eq!(tcp.urg_ptr, 0);
    assert_eq!(consumed, 20);
    assert_eq!(hint, LayerHint::Undecoded);
}

#[test]
fn undecoded_claims_whole_slice() {
    let (u, consumed, hint) = Undecoded::from_bytes(7, &[1, 2, 3]);
    assert_eq!(u.start_offset, 7);
    assert_eq!(u.length, 3);
    assert_eq!(consumed, 3);
    assert_eq!(hint, LayerHint::Undecoded);
}

#[test]
fn decode_eth_ipv4_tcp_payload() {
    let mut bytes = ethernet_header([0x08, 0x00]);
    bytes.extend_from_slice(&ipv4_header(6));
    bytes.extend_from_slice(&tcp_header());
    bytes.extend_from_slice(&[0xca, 0xfe, 0xba, 0xbe]);
    assert_eq!(bytes.len(), 58);

    let mut pkt = packet_from(bytes, LINKTYPE_ETHERNET);
    pkt.decode();
    assert!(pkt.decoded);
    assert_eq!(pkt.layers.len(), 4);
    assert!(matches!(pkt.layers[0], Layer::Ethernet(_)));
    match &pkt.layers[1] {
        Layer::IPv4(ip) => assert_eq!(ip.header_len, 5),
        other => panic!("expected IPv4, got {:?}", other),
    }
    match &pkt.layers[2] {
        Layer::Tcp(tcp) => assert_eq!(tcp.header_len, 5),
        other => panic!("expected TCP, got {:?}", other),
    }
    match &pkt.layers[3] {
        Layer::Undecoded(u) => {
            assert_eq!(u.start_offset, 54);
            assert_eq!(u.length, 4);
        }
        other => panic!("expected undecoded payload, got {:?}", other),
    }
}

#[test]
fn decode_unmapped_ethertype_leaves_remainder_undecoded() {
    let mut bytes = ethernet_header([0x08, 0x06]); // ARP, unmapped
    bytes.extend_from_slice(&[0u8; 28]);
    let mut pkt = packet_from(bytes, LINKTYPE_ETHERNET);
    pkt.decode();
    assert_eq!(pkt.layers.len(), 2);
    assert!(matches!(pkt.layers[0], Layer::Ethernet(_)));
    match &pkt.layers[1] {
        Layer::Undecoded(u) => {
            assert_eq!(u.start_offset, 14);
            assert_eq!(u.length, 28);
        }
        other => panic!("expected undecoded remainder, got {:?}", other),
    }
}

#[test]
fn decode_non_ethernet_linktype_is_undecoded() {
    let bytes = vec![1, 2, 3, 4, 5];
    let mut pkt = packet_from(bytes, 101);
    pkt.decode();
    assert_eq!(pkt.layers.len(), 1);
    match &pkt.layers[0] {
        Layer::Undecoded(u) => {
            assert_eq!(u.start_offset, 0);
            assert_eq!(u.length, 5);
        }
        other => panic!("expected one undecoded layer, got {:?}", other),
    }
}

#[test]
fn decode_short_ethernet_frame_is_undecoded() {
    let bytes = vec![0xaa; 10]; // shorter than the 14-byte minimum
    let mut pkt = packet_from(bytes, LINKTYPE_ETHERNET);
    pkt.decode();
    assert_eq!(pkt.layers.len(), 1);
    match &pkt.layers[0] {
        Layer::Undecoded(u) => {
            assert_eq!(u.start_offset, 0);
            assert_eq!(u.length, 10);
        }
        other => panic!("expected one undecoded layer, got {:?}", other),
    }
}

#[test]
fn decode_zero_progress_ipv4_is_absorbed() {
    // IHL = 0 would make the IPv4 layer claim zero bytes; the engine must
    // substitute an undecoded layer instead of looping.
    let mut bytes = ethernet_header([0x08, 0x00]);
    let mut ip = ipv4_header(6);
    ip[0] = 0x40; // version 4, IHL 0
    bytes.extend_from_slice(&ip);
    let mut pkt = packet_from(bytes, LINKTYPE_ETHERNET);
    pkt.decode();
    assert_eq!(pkt.layers.len(), 2);
    assert!(matches!(pkt.layers[0], Layer::Ethernet(_)));
    match &pkt.layers[1] {
        Layer::Undecoded(u) => {
            assert_eq!(u.start_offset, 14);
            assert_eq!(u.length, 20);
        }
        other => panic!("expected undecoded remainder, got {:?}", other),
    }
}

#[test]
fn decode_overlong_ipv4_claim_is_absorbed() {
    // IHL = 15 claims 60 bytes but only 20 remain: malformed, absorbed.
    let mut bytes = ethernet_header([0x08, 0x00]);
    let mut ip = ipv4_header(6);
    ip[0] = 0x4f;
    bytes.extend_from_slice(&ip);
    let mut pkt = packet_from(bytes, LINKTYPE_ETHERNET);
    pkt.decode();
    assert_eq!(pkt.layers.len(), 2);
    assert!(matches!(pkt.layers[0], Layer::Ethernet(_)));
    match &pkt.layers[1] {
        Layer::Undecoded(u) => {
            assert_eq!(u.start_offset, 14);
            assert_eq!(u.length, 20);
        }
        other => panic!("expected undecoded remainder, got {:?}", other),
    }
}

#[test]
fn decode_is_idempotent() {
    let mut bytes = ethernet_header([0x08, 0x00]);
    bytes.extend_from_slice(&ipv4_header(6));
    bytes.extend_from_slice(&tcp_header());
    bytes.extend_from_slice(&[9, 9]);
    let mut pkt = packet_from(bytes, LINKTYPE_ETHERNET);
    pkt.decode();
    let first = pkt.layers.clone();
    pkt.decode();
    assert_eq!(pkt.layers, first);
}

#[test]
fn decode_partitions_buffer() {
    let mut bytes = ethernet_header([0x08, 0x00]);
    bytes.extend_from_slice(&ipv4_header(6));
    bytes.extend_from_slice(&tcp_header());
    bytes.extend_from_slice(&[1, 2, 3]);
    let total = bytes.len();
    let mut pkt = packet_from(bytes, LINKTYPE_ETHERNET);
    pkt.decode();
    let mut running: usize = 0;
    for layer in &pkt.layers {
        let consumed = match layer {
            Layer::Ethernet(_) => 14,
            Layer::IPv4(ip) => 4 * ip.header_len as usize,
            Layer::Tcp(tcp) => 4 * tcp.header_len as usize,
            Layer::Undecoded(u) => {
                assert_eq!(u.start_offset, running);
                u.length
            }
        };
        assert!(consumed > 0);
        running += consumed;
    }
    assert_eq!(running, total);
}

#[test]
fn capture_builder_numbers_data_records() {
    let mut b = CaptureBuilder::new();
    assert_eq!(b.linktype, 0);
    b.on_link_type_header(LINKTYPE_ETHERNET);
    b.on_data_record(vec![1, 2, 3]);
    b.on_link_type_header(147);
    b.on_data_record(vec![4, 5]);
    assert_eq!(b.packets.len(), 2);
    assert_eq!(b.packets[0].num, 0);
    assert_eq!(b.packets[0].linktype, LINKTYPE_ETHERNET);
    assert!(!b.packets[0].decoded);
    assert_eq!(b.packets[1].num, 1);
    assert_eq!(b.packets[1].linktype, 147);
    assert_eq!(b.packets[1].bytepool.as_slice(), &[4, 5]);
}

#[test]
fn layer_summaries() {
    let bytes = ethernet_header([0x08, 0x00]);
    let (eth, _, _) = Ethernet::from_bytes(0, &bytes);
    assert_eq!(
        eth.summary(),
        "Ethernet Data [Destination: aa:bb:cc:dd:ee:ff | Source: 11:22:33:44:55:66 | Type: IPV4]"
    );

    let (ip, _, _) = IPv4::from_bytes(14, &ipv4_header(6));
    assert_eq!(
        ip.summary(),
        "Internet Protocol Version 4, Src: 1.2.3.4, Dst: 5.6.7.8"
    );

    let (tcp, _, _) = Tcp::from_bytes(34, &tcp_header());
    assert_eq!(
        tcp.summary(),
        "Transmission Control Protocol, Src Port: 443, Dst Port: 54321, Seq: 42, Ack: 7, Len: xx"
    );

    let (u, _, _) = Undecoded::from_bytes(54, &[0u8; 4]);
    assert_eq!(u.summary(), "Undecoded Data [Starts: 54, Len: 4]");
}

#[test]
fn packet_tree_item_lists_layers() {
    let mut bytes = ethernet_header([0x08, 0x00]);
    bytes.extend_from_slice(&ipv4_header(6));
    bytes.extend_from_slice(&tcp_header());
    bytes.extend_from_slice(&[0, 0, 0, 0]);
    let mut pkt = packet_from(bytes, LINKTYPE_ETHERNET);
    pkt.decode();
    let item = pkt.to_tree_item();
    assert_eq!(item.label, "Packet Num 0 [ 58B ]");
    assert_eq!(item.layers.len(), 4);
    assert_eq!(
        item.layers[3].label,
        "Undecoded Data [Starts: 54, Len: 4]"
    );
}

#[test]
fn ipv4_tree_item_field_rows() {
    let (ip, _, _) = IPv4::from_bytes(14, &ipv4_header(6));
    let item = ip.to_tree_item();
    assert_eq!(item.fields.len(), 11);
    assert_eq!(item.fields[0], "Version: 4");
    assert_eq!(item.fields[1], "Header Length: 20 bytes (5)");
    assert_eq!(item.fields[2], "Differentiated Services Field: 0x00");
    assert_eq!(item.fields[3], "Total Length: 48");
    assert_eq!(item.fields[4], "Identification: 0x1234");
    assert_eq!(item.fields[5], "Flags: 0x0002");
    assert_eq!(item.fields[6], "Time to live: 64");
    assert_eq!(item.fields[7], "Protocol: 6");
    assert_eq!(item.fields[8], "Header checksum: 0xbeef");
    assert_eq!(item.fields[9], "Source: 1.2.3.4");
    assert_eq!(item.fields[10], "Destination: 5.6.7.8");

    let verbose = ip.to_tree_item_verbose();
    assert_eq!(verbose.fields.len(), 2);
    assert_eq!(verbose.fields[0], "Version: 4");
}

#[test]
fn ethernet_tree_item_verbose_field_rows() {
    let (eth, _, _) = Ethernet::from_bytes(0, &ethernet_header([0x08, 0x06]));
    let item = eth.to_tree_item_verbose();
    assert_eq!(item.fields.len(), 3);
    assert_eq!(
        item.fields[0],
        "Destination Mac Address: aa:bb:cc:dd:ee:ff"
    );
    assert_eq!(item.fields[1], "Source Mac Address:      11:22:33:44:55:66");
    assert_eq!(item.fields[2], "Ethertype: Unidentified");
    assert!(eth.to_tree_item().fields.is_empty());
}

#[test]
fn dissector_constructors_are_zeroed() {
    let eth = Ethernet::new();
    assert_eq!(eth.destination_mac, [0; 6]);
    assert_eq!(eth.ether_type, Ethertype::Unidentified);
    let ip = IPv4::new();
    assert_eq!(ip.header_len, 0);
    let tcp = Tcp::new();
    assert_eq!(tcp.source_port, 0);
    let u = Undecoded::new();
    assert_eq!(u.length, 0);
    let pkt = Packet::new();
    assert_eq!(pkt.num, 0);
    assert!(!pkt.decoded);
}
