use tuic_quinn::address::{decode_addr, Address};
use tuic_quinn::connection::{Connect, Connection, Packet, PacketSource, Task};
use tuic_quinn::error::{AssembleError, DecodeErr, Error};
use tuic_quinn::header::{decode_header, Header, PacketHeader};
use tuic_quinn::side::{Client, Server};

fn domain_addr() -> Address {
    Address::Domain(b"example.com".to_vec(), 443)
}

fn ipv4_addr() -> Address {
    Address::Ipv4(vec![10, 0, 0, 1], 5353)
}

#[test]
fn address_round_trip_domain() {
    let addr = domain_addr();
    let mut buf: Vec<u8> = Vec::new();
    addr.encode_into(&mut buf);
    assert_eq!(buf[0], 0x00);
    assert_eq!(buf[1], 11);
    let (back, n) = decode_addr(&buf, 0).unwrap();
    assert_eq!(n, buf.len());
    assert_eq!(back, addr);
}

#[test]
fn address_round_trip_ipv4_ipv6_none() {
    for addr in [
        Address::Unspecified,
        ipv4_addr(),
        Address::Ipv6((1u8..=16).collect(), 65535),
    ] {
        let mut buf: Vec<u8> = Vec::new();
        addr.encode_into(&mut buf);
        let (back, n) = decode_addr(&buf, 0).unwrap();
        assert_eq!(n, buf.len());
        assert_eq!(back, addr);
    }
}

#[test]
fn address_decode_bad_type() {
    assert!(matches!(
        decode_addr(&vec![0x09], 0),
        Err(DecodeErr::BadAddressType(0x09))
    ));
}

#[test]
fn address_decode_truncated() {
    // A domain address declaring 5 name bytes but ending early.
    assert!(matches!(
        decode_addr(&vec![0x00, 5, b'a', b'b'], 0),
        Err(DecodeErr::Truncated)
    ));
}

#[test]
fn header_round_trip_every_command() {
    let token: Vec<u8> = (0u8..32).collect();
    let headers = [
        Header::Authenticate(token.clone()),
        Header::Connect(domain_addr()),
        Header::Packet(PacketHeader {
            assoc_id: 7,
            pkt_id: 300,
            frag_total: 3,
            frag_id: 1,
            size: 512,
            addr: ipv4_addr(),
        }),
        Header::Dissociate(9),
        Header::Heartbeat,
    ];
    for h in headers {
        let bytes = h.encode();
        assert_eq!(bytes[0], 0x05);
        let (back, n) = decode_header(&bytes).unwrap();
        assert_eq!(n, bytes.len());
        match (&h, &back) {
            (Header::Authenticate(a), Header::Authenticate(b)) => assert_eq!(a, b),
            (Header::Connect(a), Header::Connect(b)) => assert_eq!(a, b),
            (Header::Packet(a), Header::Packet(b)) => {
                assert_eq!(a.assoc_id, b.assoc_id);
                assert_eq!(a.pkt_id, b.pkt_id);
                assert_eq!(a.frag_total, b.frag_total);
                assert_eq!(a.frag_id, b.frag_id);
                assert_eq!(a.size, b.size);
                assert_eq!(a.addr, b.addr);
            }
            (Header::Dissociate(a), Header::Dissociate(b)) => assert_eq!(a, b),
            (Header::Heartbeat, Header::Heartbeat) => {}
            _ => panic!("command changed across the round trip"),
        }
    }
}

#[test]
fn header_decode_bad_version_and_command() {
    assert!(matches!(
        decode_header(&vec![0x04, 0x00]),
        Err(DecodeErr::BadVersion(0x04))
    ));
    assert!(matches!(
        decode_header(&vec![0x05, 0x09]),
        Err(DecodeErr::BadCommand(0x09))
    ));
    assert!(matches!(decode_header(&vec![0x05]), Err(DecodeErr::Truncated)));
}

#[test]
fn heartbeat_is_two_bytes() {
    let client: Connection<Client> = Connection::<Client>::new();
    assert_eq!(client.heartbeat(), vec![0x05, 0x04]);
}

#[test]
fn authenticate_header_carries_token() {
    let client = Connection::<Client>::new();
    let token: Vec<u8> = (100u8..132).collect();
    let bytes = client.authenticate(token.clone());
    assert_eq!(bytes.len(), 34);
    assert_eq!(&bytes[..2], &[0x05, 0x00]);
    assert_eq!(&bytes[2..], &token[..]);
}

#[test]
fn packet_native_single_fragment() {
    let mut client = Connection::<Client>::new();
    let wires = client
        .packet_native(&b"hello".to_vec(), domain_addr(), 7, Some(1200))
        .unwrap();
    assert_eq!(wires.len(), 1);
    let (h, n) = decode_header(&wires[0]).unwrap();
    match h {
        Header::Packet(ph) => {
            assert_eq!(ph.assoc_id, 7);
            assert_eq!(ph.pkt_id, 0);
            assert_eq!(ph.frag_total, 1);
            assert_eq!(ph.frag_id, 0);
            assert_eq!(ph.size, 5);
            assert_eq!(ph.addr, domain_addr());
        }
        _ => panic!("expected a packet header"),
    }
    assert_eq!(&wires[0][n..], b"hello");
    assert_eq!(client.task_associate_count(), 1);
}

#[test]
fn packet_native_fragment_count_and_indices() {
    // IPv4 address: header overhead 10 + 7 = 17 bytes; limit 21 leaves
    // 4 payload bytes per datagram, so 10 bytes make ceil(10/4) = 3
    // fragments of sizes 4, 4, 2, indices 0, 1, 2.
    let mut client = Connection::<Client>::new();
    let payload: Vec<u8> = (0u8..10).collect();
    let wires = client
        .packet_native(&payload, ipv4_addr(), 3, Some(21))
        .unwrap();
    assert_eq!(wires.len(), 3);
    let mut rebuilt: Vec<u8> = Vec::new();
    for (i, w) in wires.iter().enumerate() {
        assert!(w.len() <= 21);
        let (h, n) = decode_header(w).unwrap();
        match h {
            Header::Packet(ph) => {
                assert_eq!(ph.frag_total, 3);
                assert_eq!(ph.frag_id, i as u8);
                assert_eq!(ph.size as usize, w.len() - n);
                if i == 0 {
                    assert_eq!(ph.addr, ipv4_addr());
                } else {
                    assert_eq!(ph.addr, Address::Unspecified);
                }
            }
            _ => panic!("expected a packet header"),
        }
        rebuilt.extend_from_slice(&w[n..]);
    }
    assert_eq!(rebuilt, payload);
}

#[test]
fn packet_native_error_cases() {
    let mut client = Connection::<Client>::new();
    assert!(matches!(
        client.packet_native(&b"x".to_vec(), domain_addr(), 1, None),
        Err(Error::DatagramUnsupported)
    ));
    // Overhead for the IPv4 address is 17 bytes: a limit of 17 leaves no
    // room for payload.
    assert!(matches!(
        client.packet_native(&b"x".to_vec(), ipv4_addr(), 1, Some(17)),
        Err(Error::DatagramTooSmall(17))
    ));
    // One byte of payload space per datagram, 256 bytes of payload: more
    // fragments than a header can number.
    let big: Vec<u8> = vec![0u8; 256];
    assert!(matches!(
        client.packet_native(&big, ipv4_addr(), 1, Some(18)),
        Err(Error::TooManyFragments)
    ));
    // Errors touch no state.
    assert_eq!(client.task_associate_count(), 0);
}

#[test]
fn packet_quic_fragments_fit_a_length_field() {
    let mut client = Connection::<Client>::new();
    let payload: Vec<u8> = vec![7u8; 70000];
    let wires = client.packet_quic(&payload, domain_addr(), 2).unwrap();
    assert_eq!(wires.len(), 2);
    let mut rebuilt: Vec<u8> = Vec::new();
    for w in &wires {
        assert!(w.len() <= 65535);
        let (_, n) = decode_header(w).unwrap();
        rebuilt.extend_from_slice(&w[n..]);
    }
    assert_eq!(rebuilt, payload);
}

#[test]
fn connect_session_reaches_server_with_address() {
    let mut client = Connection::<Client>::new();
    let (bytes, session) = client.connect(domain_addr());
    assert_eq!(session.addr(), &domain_addr());
    assert_eq!(client.task_connect_count(), 1);

    let mut server = Connection::<Server>::new();
    match server.accept_bi_stream(&bytes) {
        Ok(Task::Connect(s)) => assert_eq!(s.addr(), &domain_addr()),
        _ => panic!("server must accept connect on a bidirectional stream"),
    }
    assert_eq!(server.task_connect_count(), 1);
}

#[test]
fn dispatch_legality_uni_stream() {
    let client = Connection::<Client>::new();
    let mut server = Connection::<Server>::new();
    let auth = Connection::<Client>::new().authenticate((0u8..32).collect());
    let connect = Header::Connect(domain_addr()).encode();
    let dissoc = Header::Dissociate(9).encode();
    let heartbeat = Header::Heartbeat.encode();

    assert!(matches!(
        client.accept_uni_stream(&auth),
        Err(Error::BadCommandUniStream("authenticate"))
    ));
    assert!(matches!(
        client.accept_uni_stream(&connect),
        Err(Error::BadCommandUniStream("connect"))
    ));
    assert!(matches!(
        client.accept_uni_stream(&dissoc),
        Err(Error::BadCommandUniStream("dissociate"))
    ));
    assert!(matches!(
        client.accept_uni_stream(&heartbeat),
        Err(Error::BadCommandUniStream("heartbeat"))
    ));

    match server.accept_uni_stream(&auth) {
        Ok(Task::Authenticate(t)) => assert_eq!(t, (0u8..32).collect::<Vec<u8>>()),
        _ => panic!("server must accept authenticate on a unidirectional stream"),
    }
    assert!(matches!(
        server.accept_uni_stream(&connect),
        Err(Error::BadCommandUniStream("connect"))
    ));
    match server.accept_uni_stream(&dissoc) {
        Ok(Task::Dissociate(9)) => {}
        _ => panic!("server must accept dissociate on a unidirectional stream"),
    }
    assert!(matches!(
        server.accept_uni_stream(&heartbeat),
        Err(Error::BadCommandUniStream("heartbeat"))
    ));
}

#[test]
fn dispatch_legality_bi_stream() {
    let client = Connection::<Client>::new();
    let mut server = Connection::<Server>::new();
    let auth = Connection::<Client>::new().authenticate((0u8..32).collect());
    let heartbeat = Header::Heartbeat.encode();
    let packet = Header::Packet(PacketHeader {
        assoc_id: 1,
        pkt_id: 0,
        frag_total: 1,
        frag_id: 0,
        size: 0,
        addr: Address::Unspecified,
    })
    .encode();

    assert!(matches!(
        client.accept_bi_stream(&auth),
        Err(Error::BadCommandBiStream("authenticate"))
    ));
    assert!(matches!(
        client.accept_bi_stream(&Header::Connect(domain_addr()).encode()),
        Err(Error::BadCommandBiStream("connect"))
    ));
    assert!(matches!(
        server.accept_bi_stream(&auth),
        Err(Error::BadCommandBiStream("authenticate"))
    ));
    assert!(matches!(
        server.accept_bi_stream(&packet),
        Err(Error::BadCommandBiStream("packet"))
    ));
    assert!(matches!(
        server.accept_bi_stream(&heartbeat),
        Err(Error::BadCommandBiStream("heartbeat"))
    ));
}

#[test]
fn dispatch_legality_datagram() {
    let client = Connection::<Client>::new();
    let mut server = Connection::<Server>::new();
    let auth = Connection::<Client>::new().authenticate((0u8..32).collect());
    let connect = Header::Connect(domain_addr()).encode();
    let heartbeat = Header::Heartbeat.encode();

    // The rejected datagram rides back in the error, unconsumed.
    match client.accept_datagram(auth.clone()) {
        Err(Error::BadCommandDatagram("authenticate", bytes)) => assert_eq!(bytes, auth),
        _ => panic!("client must reject authenticate on a datagram"),
    }
    match server.accept_datagram(connect.clone()) {
        Err(Error::BadCommandDatagram("connect", bytes)) => assert_eq!(bytes, connect),
        _ => panic!("server must reject connect on a datagram"),
    }
    assert!(matches!(
        client.accept_datagram(heartbeat.clone()),
        Err(Error::BadCommandDatagram("heartbeat", _))
    ));
    assert!(matches!(server.accept_datagram(heartbeat), Ok(Task::Heartbeat)));
}

#[test]
fn datagram_decode_failure_returns_bytes() {
    let client = Connection::<Client>::new();
    let bad = vec![0x04u8, 0x00, 1, 2, 3];
    match client.accept_datagram(bad.clone()) {
        Err(Error::UnmarshalDatagram(DecodeErr::BadVersion(0x04), bytes)) => {
            assert_eq!(bytes, bad)
        }
        _ => panic!("expected a version error carrying the datagram"),
    }
}

#[test]
fn packet_native_delivery_end_to_end() {
    let mut client = Connection::<Client>::new();
    let wires = client
        .packet_native(&b"hello".to_vec(), domain_addr(), 7, Some(1200))
        .unwrap();
    assert_eq!(wires.len(), 1);

    let mut server = Connection::<Server>::new();
    let task = server.accept_datagram(wires[0].clone()).unwrap();
    let pkt = match task {
        Task::Packet(p) => p,
        _ => panic!("expected a packet task"),
    };
    match pkt.accept(&mut server) {
        Ok(Some((payload, addr, assoc_id))) => {
            assert_eq!(payload, b"hello".to_vec());
            assert_eq!(addr, domain_addr());
            assert_eq!(assoc_id, 7);
        }
        _ => panic!("a single-fragment packet must assemble at once"),
    }
}

#[test]
fn oversized_declared_payload_is_length_mismatch() {
    // The header declares 10 payload bytes; only 5 follow.
    let mut server = Connection::<Server>::new();
    let mut dg = Header::Packet(PacketHeader {
        assoc_id: 4,
        pkt_id: 0,
        frag_total: 1,
        frag_id: 0,
        size: 10,
        addr: Address::Unspecified,
    })
    .encode();
    dg.extend_from_slice(b"12345");
    match server.accept_datagram(dg) {
        Err(Error::PayloadLength(10, 5)) => {}
        _ => panic!("expected a payload length mismatch"),
    }
    // Extra trailing bytes beyond the declared size are fine.
    let mut client = Connection::<Client>::new();
    let mut wires = client
        .packet_native(&b"hi".to_vec(), domain_addr(), 7, Some(1200))
        .unwrap();
    let mut dg2 = wires.remove(0);
    dg2.extend_from_slice(b"trailing");
    let mut server2 = Connection::<Server>::new();
    let task = server2.accept_datagram(dg2).unwrap();
    match task {
        Task::Packet(p) => match p.accept(&mut server2) {
            Ok(Some((payload, _, _))) => assert_eq!(payload, b"hi".to_vec()),
            _ => panic!("expected a completed packet"),
        },
        _ => panic!("expected a packet task"),
    }
}

#[test]
fn client_rejects_packets_for_unknown_associations() {
    let client = Connection::<Client>::new();
    let dg = Header::Packet(PacketHeader {
        assoc_id: 42,
        pkt_id: 0,
        frag_total: 1,
        frag_id: 0,
        size: 0,
        addr: Address::Unspecified,
    })
    .encode();
    assert!(matches!(
        client.accept_datagram(dg.clone()),
        Err(Error::InvalidUdpSession(42))
    ));
    assert!(matches!(
        client.accept_uni_stream(&dg),
        Err(Error::InvalidUdpSession(42))
    ));
}

#[test]
fn reassembly_is_order_independent() {
    // Three fragments fed in the order 2, 0, 1.
    let mut client = Connection::<Client>::new();
    let payload: Vec<u8> = (0u8..10).collect();
    let wires = client
        .packet_native(&payload, ipv4_addr(), 3, Some(21))
        .unwrap();
    assert_eq!(wires.len(), 3);

    let mut server = Connection::<Server>::new();
    for idx in [2usize, 0, 1] {
        let task = server.accept_datagram(wires[idx].clone()).unwrap();
        let pkt = match task {
            Task::Packet(p) => p,
            _ => panic!("expected a packet task"),
        };
        let done = pkt.accept(&mut server).unwrap();
        if idx == 1 {
            let (got, addr, assoc_id) = done.expect("last fragment completes the packet");
            assert_eq!(got, payload);
            assert_eq!(addr, ipv4_addr());
            assert_eq!(assoc_id, 3);
        } else {
            assert!(done.is_none(), "incomplete packets yield nothing yet");
        }
    }
}

#[test]
fn duplicate_and_mismatched_fragments_are_rejected() {
    let mut client = Connection::<Client>::new();
    let payload: Vec<u8> = (0u8..10).collect();
    let wires = client
        .packet_native(&payload, ipv4_addr(), 3, Some(21))
        .unwrap();

    let mut server = Connection::<Server>::new();
    let feed = |server: &mut Connection<Server>,
                w: Vec<u8>|
     -> Result<Option<(Vec<u8>, Address, u16)>, Error> {
        match server.accept_datagram(w).unwrap() {
            Task::Packet(p) => p.accept(server),
            _ => panic!("expected a packet task"),
        }
    };
    assert!(feed(&mut server, wires[0].clone()).unwrap().is_none());
    assert!(matches!(
        feed(&mut server, wires[0].clone()),
        Err(Error::Assemble(AssembleError::DuplicateFragment))
    ));

    // Same packet key, contradictory fragment count.
    let mut other = Header::Packet(PacketHeader {
        assoc_id: 3,
        pkt_id: 0,
        frag_total: 2,
        frag_id: 1,
        size: 1,
        addr: Address::Unspecified,
    })
    .encode();
    other.push(0xaa);
    assert!(matches!(
        feed(&mut server, other),
        Err(Error::Assemble(AssembleError::FragmentMismatch))
    ));
}

#[test]
fn fragment_index_out_of_range_is_invalid() {
    let mut server = Connection::<Server>::new();
    let pkt = Packet {
        hdr: PacketHeader {
            assoc_id: 1,
            pkt_id: 0,
            frag_total: 1,
            frag_id: 1,
            size: 0,
            addr: Address::Unspecified,
        },
        src: PacketSource::Native(Vec::new()),
    };
    assert!(matches!(
        pkt.accept(&mut server),
        Err(Error::Assemble(AssembleError::InvalidFragment))
    ));
}

#[test]
fn streamed_packet_reads_exactly_the_declared_length() {
    let mut client = Connection::<Client>::new();
    let wires = client
        .packet_quic(&b"streamed".to_vec(), domain_addr(), 5)
        .unwrap();
    assert_eq!(wires.len(), 1);
    let (_, n) = decode_header(&wires[0]).unwrap();

    let mut server = Connection::<Server>::new();
    let task = server.accept_uni_stream(&wires[0]).unwrap();
    let pkt = match task {
        Task::Packet(p) => p,
        _ => panic!("expected a packet task"),
    };
    // A short read fails and exposes no bytes.
    let short = wires[0][n..n + 3].to_vec();
    match pkt.accept_streamed(short, &mut server) {
        Err(Error::PayloadLength(8, 3)) => {}
        _ => panic!("a short read must be a length mismatch"),
    }

    // The exact read completes the packet.
    let task = server.accept_uni_stream(&wires[0]).unwrap();
    let pkt = match task {
        Task::Packet(p) => p,
        _ => panic!("expected a packet task"),
    };
    let data = wires[0][n..].to_vec();
    match pkt.accept_streamed(data, &mut server) {
        Ok(Some((payload, addr, assoc_id))) => {
            assert_eq!(payload, b"streamed".to_vec());
            assert_eq!(addr, domain_addr());
            assert_eq!(assoc_id, 5);
        }
        _ => panic!("the declared length must complete the packet"),
    }
}

#[test]
fn collect_garbage_zero_discards_incomplete_packets() {
    let mut client = Connection::<Client>::new();
    let payload: Vec<u8> = (0u8..10).collect();
    let wires = client
        .packet_native(&payload, ipv4_addr(), 3, Some(21))
        .unwrap();

    let mut server = Connection::<Server>::new();
    let feed = |server: &mut Connection<Server>,
                w: Vec<u8>|
     -> Result<Option<(Vec<u8>, Address, u16)>, Error> {
        match server.accept_datagram(w).unwrap() {
            Task::Packet(p) => p.accept(server),
            _ => panic!("expected a packet task"),
        }
    };
    assert!(feed(&mut server, wires[0].clone()).unwrap().is_none());

    // A zero bound discards the buffered fragment at once...
    server.collect_garbage(0);

    // ...so the same fragment starts a fresh, empty reassembly state
    // instead of counting as a duplicate.
    assert!(feed(&mut server, wires[0].clone()).unwrap().is_none());

    // A generous bound keeps the buffer: now the fragment is a duplicate.
    server.collect_garbage(3_600_000);
    assert!(matches!(
        feed(&mut server, wires[0].clone()),
        Err(Error::Assemble(AssembleError::DuplicateFragment))
    ));
}

#[test]
fn dissociate_forgets_the_association() {
    let mut client = Connection::<Client>::new();
    client
        .packet_native(&b"a".to_vec(), domain_addr(), 7, Some(1200))
        .unwrap();
    assert_eq!(client.task_associate_count(), 1);

    let bytes = client.dissociate(7);
    let (h, _) = decode_header(&bytes).unwrap();
    assert!(matches!(h, Header::Dissociate(7)));
    assert_eq!(client.task_associate_count(), 0);

    // Replies for the dropped association are now rejected.
    let reply = Header::Packet(PacketHeader {
        assoc_id: 7,
        pkt_id: 0,
        frag_total: 1,
        frag_id: 0,
        size: 0,
        addr: Address::Unspecified,
    })
    .encode();
    assert!(matches!(
        client.accept_datagram(reply),
        Err(Error::InvalidUdpSession(7))
    ));

    // The server drops its state when told to dissociate.
    let mut server = Connection::<Server>::new();
    let wires = client
        .packet_native(&(0u8..10).collect::<Vec<u8>>(), ipv4_addr(), 9, Some(21))
        .unwrap();
    match server.accept_datagram(wires[0].clone()).unwrap() {
        Task::Packet(p) => {
            p.accept(&mut server).unwrap();
        }
        _ => panic!("expected a packet task"),
    }
    assert_eq!(server.task_associate_count(), 1);
    match server.accept_uni_stream(&Header::Dissociate(9).encode()) {
        Ok(Task::Dissociate(9)) => {}
        _ => panic!("server must accept dissociate"),
    }
    assert_eq!(server.task_associate_count(), 0);
}

#[test]
fn packet_ids_advance_per_send() {
    let mut client = Connection::<Client>::new();
    for expected in 0u16..3 {
        let wires = client
            .packet_native(&b"x".to_vec(), domain_addr(), 1, Some(1200))
            .unwrap();
        let (h, _) = decode_header(&wires[0]).unwrap();
        match h {
            Header::Packet(ph) => assert_eq!(ph.pkt_id, expected),
            _ => panic!("expected a packet header"),
        }
    }
}

#[test]
fn session_object_is_plain_data() {
    let session = Connect {
        addr: Address::Ipv4(vec![127, 0, 0, 1], 8080),
    };
    assert_eq!(session.addr(), &Address::Ipv4(vec![127, 0, 0, 1], 8080));
}
