//! DHCPv6 end-to-end behaviour: the DUID, the two exchange steps, decoding,
//! and prefix-delegation interpretation.

use ftth_dhcp::ipv6::{
    ipv6_ll_to_mac, Dhcp6Error, Dhcp6Message, Dhcp6Option, DomainName, IaPd, IaPrefix, MessageType,
    PdOpt, PdPrefix, PrefixOpt,
};
use ftth_dhcp::ipv6_build::{local_duid, request_pd, solicit_pd};
use ftth_dhcp::ipv6_codec::{decode, encode};
use ftth_dhcp::ipv6_lease::recv;

const MAC: [u8; 6] = [0xAA, 0xBB, 0xCC, 0xDD, 0xEE, 0xFF];

#[test]
fn duid_is_type3_ethernet_mac() {
    let duid = local_duid(&MAC);
    assert_eq!(duid, vec![0x00, 0x03, 0x00, 0x01, 0xAA, 0xBB, 0xCC, 0xDD, 0xEE, 0xFF]);
    assert_eq!(duid.len(), 10);
}

#[test]
fn solicit_roundtrip() {
    let m = solicit_pd(&MAC, 120, 0xCAFE);
    let back = decode(&encode(&m)).expect("solicit must decode");
    assert_eq!(back, m);
    assert_eq!(m.msg_type, MessageType::Solicit);
    assert!(m.options.contains(&Dhcp6Option::ClientId(local_duid(&MAC))));
    assert!(m.options.contains(&Dhcp6Option::ElapsedTime(120)));
    assert!(m.options.contains(&Dhcp6Option::IaPd(IaPd { id: 0xCAFE, t1: 0, t2: 0, opts: vec![] })));
}

fn sample_pd() -> PdPrefix {
    PdPrefix {
        prefix: [0x2c, 0x0f, 0, 0, 0, 0, 0, 0, 0, 0, 0, 0, 0, 0, 0, 0],
        prefix_len: 56,
        preferred_lifetime: 1000,
        valid_lifetime: 2000,
        t1: 500,
        t2: 800,
    }
}

#[test]
fn request_pd_roundtrip_and_contents() {
    let server = vec![9, 9, 9, 9];
    let m = request_pd(&MAC, 7, 0xCAFE, server.clone(), &sample_pd());
    let back = decode(&encode(&m)).expect("request must decode");
    assert_eq!(back, m);
    assert_eq!(m.msg_type, MessageType::Request);
    assert!(m.options.contains(&Dhcp6Option::ServerId(server)));
    assert!(m.options.contains(&Dhcp6Option::Oro(vec![25, 22, 31, 23, 24])));
    assert!(m.options.contains(&Dhcp6Option::VendorClass(210, vec![MAC.to_vec()])));
    let mut echoed = None;
    for o in &m.options {
        if let Dhcp6Option::IaPd(pd) = o {
            echoed = Some(pd.clone());
        }
    }
    let pd = echoed.expect("the request echoes an IA-PD");
    assert_eq!(pd.id, 0xCAFE);
    match &pd.opts[0] {
        PdOpt::Prefix(p) => {
            assert_eq!(p.prefix_ip, sample_pd().prefix);
            assert_eq!(p.prefix_len, 56);
            assert_eq!(p.opts, vec![PrefixOpt::Status(0, vec![])]);
        }
        other => panic!("expected the echoed prefix, got {:?}", other),
    }
}

/// A synthetic Advertise carrying a delegated prefix and extras.
fn advertise(opts: Vec<Dhcp6Option>) -> Vec<u8> {
    encode(&Dhcp6Message { msg_type: MessageType::Advertise, xid: 0x123456, options: opts })
}

fn base_opts() -> Vec<Dhcp6Option> {
    vec![
        Dhcp6Option::ClientId(local_duid(&MAC)),
        Dhcp6Option::ServerId(vec![9, 9, 9, 9]),
    ]
}

#[test]
fn advertise_with_prefix_interprets() {
    let mut opts = base_opts();
    opts.push(Dhcp6Option::IaPd(IaPd {
        id: 1,
        t1: 500,
        t2: 800,
        opts: vec![PdOpt::Prefix(IaPrefix {
            preferred_lifetime: 1000,
            valid_lifetime: 2000,
            prefix_len: 56,
            prefix_ip: sample_pd().prefix,
            opts: vec![],
        })],
    }));
    let res = recv(&advertise(opts), MessageType::Advertise, &MAC).expect("must interpret");
    assert_eq!(res.client_id, local_duid(&MAC));
    assert_eq!(res.server_id, vec![9, 9, 9, 9]);
    assert_eq!(res.pd, Some(sample_pd()));
}

#[test]
fn empty_iapd_yields_no_pd() {
    let mut opts = base_opts();
    opts.push(Dhcp6Option::IaPd(IaPd { id: 1, t1: 500, t2: 800, opts: vec![] }));
    let res = recv(&advertise(opts), MessageType::Advertise, &MAC).expect("must interpret");
    // No IA-Prefix in the container: the delegation is absent, for the
    // caller to treat as "no PD offered".
    assert_eq!(res.pd, None);
}

#[test]
fn foreign_client_id_fails_whatever_else_is_right() {
    let mut opts = vec![
        Dhcp6Option::ClientId(vec![0, 3, 0, 1, 1, 2, 3, 4, 5, 6]),
        Dhcp6Option::ServerId(vec![9, 9, 9, 9]),
    ];
    opts.push(Dhcp6Option::IaPd(IaPd { id: 1, t1: 1, t2: 2, opts: vec![] }));
    match recv(&advertise(opts), MessageType::Advertise, &MAC) {
        Err(Dhcp6Error::ClientIdMismatch) => {}
        other => panic!("expected a client-identifier mismatch, got {:?}", other),
    }
}

#[test]
fn non_success_status_fails_with_the_status() {
    let mut opts = base_opts();
    opts.push(Dhcp6Option::StatusCode(6, b"no prefix".to_vec()));
    match recv(&advertise(opts), MessageType::Advertise, &MAC) {
        Err(Dhcp6Error::ServerStatus(6)) => {}
        other => panic!("expected the carried status, got {:?}", other),
    }
}

#[test]
fn wrong_message_type_fails() {
    match recv(&advertise(base_opts()), MessageType::Reply, &MAC) {
        Err(Dhcp6Error::WrongMessageType) => {}
        other => panic!("expected a message-type mismatch, got {:?}", other),
    }
}

#[test]
fn missing_identifiers_fail() {
    let only_server = vec![Dhcp6Option::ServerId(vec![9])];
    match recv(&advertise(only_server), MessageType::Advertise, &MAC) {
        Err(Dhcp6Error::MissingClientId) => {}
        other => panic!("expected a missing client id, got {:?}", other),
    }
    let only_client = vec![Dhcp6Option::ClientId(local_duid(&MAC))];
    match recv(&advertise(only_client), MessageType::Advertise, &MAC) {
        Err(Dhcp6Error::MissingServerId) => {}
        other => panic!("expected a missing server id, got {:?}", other),
    }
}

#[test]
fn sip_and_sntp_lists_take_complete_groups_only() {
    let mut payload = vec![1u8; 16];
    payload.extend_from_slice(&[2u8; 16]);
    payload.extend_from_slice(&[3u8; 7]); // incomplete trailing group
    let mut opts = base_opts();
    opts.push(Dhcp6Option::Unknown(22, payload.clone()));
    opts.push(Dhcp6Option::Unknown(31, payload[..16].to_vec()));
    let res = recv(&advertise(opts), MessageType::Advertise, &MAC).unwrap();
    assert_eq!(res.sip_server_addrs, vec![[1u8; 16], [2u8; 16]]);
    assert_eq!(res.sntp_server_addrs, vec![[1u8; 16]]);
}

#[test]
fn name_servers_and_search_list_interpret() {
    let mut opts = base_opts();
    opts.push(Dhcp6Option::DomainNameServers(vec![[7u8; 16]]));
    opts.push(Dhcp6Option::DomainSearchList(vec![
        DomainName { labels: vec![b"abc".to_vec(), b"example".to_vec()] },
        DomainName { labels: vec![b"x".to_vec()] },
    ]));
    let res = recv(&advertise(opts), MessageType::Advertise, &MAC).unwrap();
    assert_eq!(res.nameserver_addrs, vec![[7u8; 16]]);
    assert_eq!(res.domain_search_list, vec![b"abc.example".to_vec(), b"x".to_vec()]);
}

#[test]
fn truncated_datagrams_error_and_never_panic() {
    let bytes = advertise(base_opts());
    assert!(matches!(decode(&vec![1, 2]), Err(Dhcp6Error::Truncated)));
    for cut in 0..bytes.len() {
        let _ = decode(&bytes[..cut].to_vec());
    }
    for i in 0..bytes.len() {
        let mut mutated = bytes.clone();
        mutated[i] = mutated[i].wrapping_add(0x80);
        let _ = recv(&mutated, MessageType::Advertise, &MAC);
    }
}

#[test]
fn ll_to_mac_recovers_the_embedded_address() {
    // fe80:: with the modified EUI-64 of the test hardware address.
    let ll: [u8; 16] = [
        0xfe, 0x80, 0, 0, 0, 0, 0, 0, 0xA8, 0xBB, 0xCC, 0xff, 0xfe, 0xDD, 0xEE, 0xFF,
    ];
    assert_eq!(ipv6_ll_to_mac(&ll), MAC);
    // A global address yields all zeros.
    let global: [u8; 16] = [
        0x20, 0x01, 0, 0, 0, 0, 0, 0, 0xA8, 0xBB, 0xCC, 0xff, 0xfe, 0xDD, 0xEE, 0xFF,
    ];
    assert_eq!(ipv6_ll_to_mac(&global), [0u8; 6]);
}

#[test]
fn header_fields_roundtrip() {
    let m = Dhcp6Message {
        msg_type: MessageType::Reply,
        xid: 0xABCDEF,
        options: vec![Dhcp6Option::ElapsedTime(1)],
    };
    let back = decode(&encode(&m)).unwrap();
    assert_eq!(back.msg_type, MessageType::Reply);
    assert_eq!(back.xid, 0xABCDEF);
    assert_eq!(back.options, m.options);
}

#[test]
fn status_message_bytes_are_kept() {
    let m = Dhcp6Message {
        msg_type: MessageType::Reply,
        xid: 0,
        options: vec![Dhcp6Option::StatusCode(0, b"ok".to_vec())],
    };
    let back = decode(&encode(&m)).unwrap();
    assert_eq!(back.options, vec![Dhcp6Option::StatusCode(0, b"ok".to_vec())]);
}

#[test]
fn trailing_bytes_after_the_last_option_are_ignored() {
    // Three stray bytes: less than one option frame header.
    let mut bytes = advertise(base_opts());
    bytes.extend_from_slice(&[1, 2, 3]);
    let res = recv(&bytes, MessageType::Advertise, &MAC).expect("tail must be ignored");
    assert_eq!(res.client_id, local_duid(&MAC));

    // A trailing frame whose declared length overruns the datagram.
    let mut bytes = advertise(base_opts());
    bytes.extend_from_slice(&[0, 8, 255, 255]);
    let res = recv(&bytes, MessageType::Advertise, &MAC).expect("overrun tail must be ignored");
    assert_eq!(res.server_id, vec![9, 9, 9, 9]);
}
