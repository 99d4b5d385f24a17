//! DHCPv4 end-to-end behaviour: building, encoding, decoding, and
//! interpreting messages, including the vendor sub-option parsers.

use ftth_dhcp::ipv4::{Dhcp4Option, Dhcp4RequestType, Dhcp4Route, Dhcp4Error, MessageType};
use ftth_dhcp::ipv4_build::{discover, request, should_unicast};
use ftth_dhcp::ipv4_codec::{decode, encode};
use ftth_dhcp::ipv4_lease::recv;

const MAC: [u8; 6] = [0xAA, 0xBB, 0xCC, 0xDD, 0xEE, 0xFF];

fn addr(a: u8, b: u8, c: u8, d: u8) -> u32 {
    u32::from_be_bytes([a, b, c, d])
}

#[test]
fn discover_roundtrip_parameter_request_list() {
    let m = discover(&MAC);
    let bytes = encode(&m);
    let back = decode(&bytes).expect("discover datagram must decode");
    assert_eq!(back, m);
    let mut prl = None;
    let mut mms = None;
    for o in &back.options {
        match o {
            Dhcp4Option::ParameterRequestList(l) => prl = Some(l.clone()),
            Dhcp4Option::MaxMessageSize(x) => mms = Some(*x),
            _ => {}
        }
    }
    // The list asks exactly for the subnet mask (1) and the router (3).
    assert_eq!(prl, Some(vec![1u8, 3u8]));
    assert_eq!(mms, Some(1200));
}

#[test]
fn request_roundtrip_all_variants() {
    let req_ip = addr(192, 0, 2, 10);
    let server = addr(192, 0, 2, 1);
    for kind in [
        Dhcp4RequestType::Select,
        Dhcp4RequestType::InitReboot,
        Dhcp4RequestType::Renew,
        Dhcp4RequestType::Rebind,
    ] {
        let m = request(kind, req_ip, server, &MAC);
        let bytes = encode(&m);
        let back = decode(&bytes).expect("request datagram must decode");
        assert_eq!(back, m, "round trip must reproduce every option");
    }
}

#[test]
fn request_variants_differ_as_specified() {
    let req_ip = addr(192, 0, 2, 10);
    let server = addr(192, 0, 2, 1);
    let select = request(Dhcp4RequestType::Select, req_ip, server, &MAC);
    assert_eq!(select.ciaddr, 0);
    assert_eq!(select.siaddr, 0);
    assert!(select.options.contains(&Dhcp4Option::RequestedIpAddress(req_ip)));
    assert!(select.options.contains(&Dhcp4Option::ServerIdentifier(server)));

    let reboot = request(Dhcp4RequestType::InitReboot, req_ip, server, &MAC);
    assert_eq!(reboot.ciaddr, 0);
    assert_eq!(reboot.siaddr, 0);
    assert!(reboot.options.contains(&Dhcp4Option::RequestedIpAddress(req_ip)));
    assert!(!reboot.options.contains(&Dhcp4Option::ServerIdentifier(server)));

    let renew = request(Dhcp4RequestType::Renew, req_ip, server, &MAC);
    assert_eq!(renew.ciaddr, req_ip);
    assert!(!renew.options.contains(&Dhcp4Option::RequestedIpAddress(req_ip)));

    assert!(should_unicast(Dhcp4RequestType::Renew));
    assert!(!should_unicast(Dhcp4RequestType::Select));
    assert!(!should_unicast(Dhcp4RequestType::InitReboot));
    assert!(!should_unicast(Dhcp4RequestType::Rebind));
}

#[test]
fn request_carries_vendor_block() {
    let m = request(Dhcp4RequestType::Select, 1, 2, &MAC);
    let mut vendor = None;
    for o in &m.options {
        if let Dhcp4Option::Unknown(125, d) = o {
            vendor = Some(d.clone());
        }
    }
    let mut expect = vec![0, 0, 0, 210, 7, 6];
    expect.extend_from_slice(&MAC);
    assert_eq!(vendor, Some(expect));
}

/// A synthetic Offer as a server would send it.
fn offer_bytes() -> Vec<u8> {
    let vendor = vec![0, 0, 0, 210, 7, 202, 5, b'1', b'2', b'3', b'4', b'5'];
    let m = ftth_dhcp::ipv4::Dhcp4Message {
        opcode: 2,
        htype: 1,
        xid: 0x1234_5678,
        flags: 0,
        ciaddr: 0,
        yiaddr: addr(192, 0, 2, 10),
        siaddr: 0,
        giaddr: 0,
        chaddr: MAC,
        options: vec![
            Dhcp4Option::MessageType(MessageType::Offer),
            Dhcp4Option::SubnetMask(addr(255, 255, 255, 0)),
            Dhcp4Option::ServerIdentifier(addr(192, 0, 2, 1)),
            Dhcp4Option::Unknown(125, vendor),
        ],
    };
    encode(&m)
}

#[test]
fn offer_interprets_to_lease() {
    let res = recv(&offer_bytes(), MessageType::Offer).expect("offer must interpret");
    assert_eq!(res.client_addr, Some(addr(192, 0, 2, 10)));
    assert_eq!(res.server_addr, Some(addr(192, 0, 2, 1)));
    assert_eq!(res.subnet_mask, Some(addr(255, 255, 255, 0)));
    assert_eq!(res.sip_main_number, Some(b"12345".to_vec()));
}

#[test]
fn zero_yiaddr_is_no_client_address() {
    let m = ftth_dhcp::ipv4::Dhcp4Message {
        opcode: 2,
        htype: 1,
        xid: 0,
        flags: 0,
        ciaddr: 0,
        yiaddr: 0,
        siaddr: 0,
        giaddr: 0,
        chaddr: MAC,
        options: vec![Dhcp4Option::MessageType(MessageType::Ack)],
    };
    let res = recv(&encode(&m), MessageType::Ack).unwrap();
    assert_eq!(res.client_addr, None);
}

#[test]
fn sip_address_list_stops_at_incomplete_entry() {
    // Declared count 3, but only two complete four-byte addresses follow.
    let data = vec![3, 1, 1, 1, 1, 2, 2, 2, 2];
    let m = ftth_dhcp::ipv4::Dhcp4Message {
        opcode: 2,
        htype: 1,
        xid: 0,
        flags: 0,
        ciaddr: 0,
        yiaddr: 0,
        siaddr: 0,
        giaddr: 0,
        chaddr: MAC,
        options: vec![Dhcp4Option::Unknown(120, data)],
    };
    let res = recv(&encode(&m), MessageType::Ack).unwrap();
    assert_eq!(res.sip_server_addrs, vec![addr(1, 1, 1, 1), addr(2, 2, 2, 2)]);
}

#[test]
fn foreign_enterprise_number_populates_nothing() {
    // Enterprise 100 instead of 210: the block is ignored whole.
    let data = vec![0, 0, 0, 100, 7, 202, 5, b'1', b'2', b'3', b'4', b'5'];
    let m = ftth_dhcp::ipv4::Dhcp4Message {
        opcode: 2,
        htype: 1,
        xid: 0,
        flags: 0,
        ciaddr: 0,
        yiaddr: 0,
        siaddr: 0,
        giaddr: 0,
        chaddr: MAC,
        options: vec![Dhcp4Option::Unknown(125, data)],
    };
    let res = recv(&encode(&m), MessageType::Ack).unwrap();
    assert_eq!(res.sip_main_number, None);
    assert_eq!(res.sip_domain_name, None);
    assert!(res.sip_add_numbers.is_empty());
}

#[test]
fn vendor_suboptions_accumulate() {
    let mut data = vec![0, 0, 0, 210, 0];
    // 203 twice, then a 204 domain name "abc.example".
    data.extend_from_slice(&[203, 3, b'1', b'2', b'3']);
    data.extend_from_slice(&[203, 4, b'4', b'5', b'6', 0]);
    data.extend_from_slice(&[204, 13, 3, b'a', b'b', b'c', 7, b'e', b'x', b'a', b'm', b'p', b'l', b'e', 0]);
    let m = ftth_dhcp::ipv4::Dhcp4Message {
        opcode: 2,
        htype: 1,
        xid: 0,
        flags: 0,
        ciaddr: 0,
        yiaddr: 0,
        siaddr: 0,
        giaddr: 0,
        chaddr: MAC,
        options: vec![Dhcp4Option::Unknown(125, data)],
    };
    let res = recv(&encode(&m), MessageType::Ack).unwrap();
    assert_eq!(res.sip_add_numbers, vec![b"123".to_vec(), b"456".to_vec()]);
    assert_eq!(res.sip_domain_name, Some(b"abc.example".to_vec()));
}

#[test]
fn classless_routes_decode() {
    // 10.0.0.0/8 via 192.0.2.1 and 0.0.0.0/0 via 192.0.2.2, compact form.
    let payload = vec![8, 10, 192, 0, 2, 1, 0, 192, 0, 2, 2];
    let mut bytes = encode(&ftth_dhcp::ipv4::Dhcp4Message {
        opcode: 2,
        htype: 1,
        xid: 0,
        flags: 0,
        ciaddr: 0,
        yiaddr: 0,
        siaddr: 0,
        giaddr: 0,
        chaddr: MAC,
        options: vec![],
    });
    // Replace the end option with a hand-framed option 121 plus a new end.
    assert_eq!(bytes.pop(), Some(255));
    bytes.push(121);
    bytes.push(payload.len() as u8);
    bytes.extend_from_slice(&payload);
    bytes.push(255);
    let res = recv(&bytes, MessageType::Ack).unwrap();
    assert_eq!(
        res.static_routes,
        vec![
            Dhcp4Route { prefix_addr: addr(10, 0, 0, 0), prefix_len: 8, gateway: addr(192, 0, 2, 1) },
            Dhcp4Route { prefix_addr: 0, prefix_len: 0, gateway: addr(192, 0, 2, 2) },
        ]
    );
}

#[test]
fn truncated_buffer_is_an_error() {
    assert_eq!(decode(&vec![1, 2, 3]), Err(Dhcp4Error::Truncated));
}

#[test]
fn bad_magic_is_an_error() {
    let mut bytes = offer_bytes();
    bytes[236] = 0;
    assert_eq!(decode(&bytes), Err(Dhcp4Error::BadMagic));
}

#[test]
fn request_opcode_is_not_a_reply() {
    let bytes = encode(&discover(&MAC));
    match recv(&bytes, MessageType::Offer) {
        Err(Dhcp4Error::NotReply) => {}
        other => panic!("expected a non-reply error, got {:?}", other),
    }
}

#[test]
fn wrong_message_type_is_an_error() {
    match recv(&offer_bytes(), MessageType::Ack) {
        Err(Dhcp4Error::WrongMessageType) => {}
        other => panic!("expected a message-type mismatch, got {:?}", other),
    }
}

#[test]
fn option_overrun_is_an_error() {
    let mut bytes = offer_bytes();
    assert_eq!(bytes.pop(), Some(255));
    bytes.push(61);
    bytes.push(200); // declares far more payload than follows
    bytes.push(1);
    assert_eq!(decode(&bytes), Err(Dhcp4Error::Truncated));
}

#[test]
fn invalid_typed_payload_is_skipped_not_fatal() {
    let mut bytes = offer_bytes();
    assert_eq!(bytes.pop(), Some(255));
    bytes.push(1); // subnet mask with a three-byte payload: unparsable
    bytes.push(3);
    bytes.extend_from_slice(&[9, 9, 9]);
    bytes.push(255);
    let m = decode(&bytes).expect("the malformed option is skipped, the rest decodes");
    assert_eq!(
        m.options.iter().filter(|o| matches!(o, Dhcp4Option::SubnetMask(_))).count(),
        1
    );
}

#[test]
fn decode_never_panics_on_truncations_and_mutations() {
    let bytes = offer_bytes();
    for cut in 0..bytes.len() {
        let _ = decode(&bytes[..cut].to_vec());
    }
    for i in 0..bytes.len() {
        let mut mutated = bytes.clone();
        mutated[i] = mutated[i].wrapping_add(0x80);
        let _ = decode(&mutated);
        let _ = recv(&mutated, MessageType::Offer);
    }
}

#[test]
fn timers_and_routers_interpret() {
    let m = ftth_dhcp::ipv4::Dhcp4Message {
        opcode: 2,
        htype: 1,
        xid: 0,
        flags: 0,
        ciaddr: 0,
        yiaddr: addr(192, 0, 2, 10),
        siaddr: 0,
        giaddr: 0,
        chaddr: MAC,
        options: vec![
            Dhcp4Option::MessageType(MessageType::Ack),
            Dhcp4Option::Router(vec![addr(192, 0, 2, 1), addr(192, 0, 2, 2)]),
            Dhcp4Option::AddressLeaseTime(3600),
            Dhcp4Option::Renewal(1800),
            Dhcp4Option::Rebinding(3150),
        ],
    };
    let res = recv(&encode(&m), MessageType::Ack).unwrap();
    assert_eq!(res.router_addrs, vec![addr(192, 0, 2, 1), addr(192, 0, 2, 2)]);
    assert_eq!(res.addr_time, 3600);
    assert_eq!(res.renewal_time, 1800);
    assert_eq!(res.rebind_time, 3150);
}

#[test]
fn duplicate_scalar_option_takes_the_last_value() {
    let mut bytes = encode(&ftth_dhcp::ipv4::Dhcp4Message {
        opcode: 2,
        htype: 1,
        xid: 0,
        flags: 0,
        ciaddr: 0,
        yiaddr: 0,
        siaddr: 0,
        giaddr: 0,
        chaddr: MAC,
        options: vec![Dhcp4Option::SubnetMask(addr(255, 0, 0, 0))],
    });
    assert_eq!(bytes.pop(), Some(255));
    bytes.extend_from_slice(&[1, 4, 255, 255, 255, 0, 255]);
    let res = recv(&bytes, MessageType::Ack).unwrap();
    assert_eq!(res.subnet_mask, Some(addr(255, 255, 255, 0)));
}

#[test]
fn pad_bytes_are_skipped() {
    let mut bytes = encode(&ftth_dhcp::ipv4::Dhcp4Message {
        opcode: 2,
        htype: 1,
        xid: 0,
        flags: 0,
        ciaddr: 0,
        yiaddr: 0,
        siaddr: 0,
        giaddr: 0,
        chaddr: MAC,
        options: vec![],
    });
    assert_eq!(bytes.pop(), Some(255));
    bytes.extend_from_slice(&[0, 0, 0, 54, 4, 192, 0, 2, 1, 0, 255]);
    let res = recv(&bytes, MessageType::Ack).unwrap();
    assert_eq!(res.server_addr, Some(addr(192, 0, 2, 1)));
}
