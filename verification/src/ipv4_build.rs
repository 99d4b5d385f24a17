//! DHCPv4 message construction: one pure builder per exchange step, each
//! proved to produce exactly the specified header fields and option list,
//! well formed for the wire codec's round trip.

use vstd::prelude::*;

use crate::ipv4::{
    spec_decode4, spec_encode4, wf_msg4, wf_opt4, Dhcp4Error, Dhcp4Message, Dhcp4Option,
    Dhcp4RequestType, MessageType, Msg4, Opt4, OPCODE_REQUEST, VENDOR_CODE_NTT,
};
use crate::ipv4_codec::lemma_encode4_decode4;
use crate::wire::{push_u32, u32_bytes};

verus! {

/// The broadcast bit of the BOOTP flags field.
pub const FLAG_BROADCAST: u16 = 0x8000;

/// The maximum DHCP message size this client advertises.
pub const MAX_MESSAGE_SIZE: u16 = 1200;

/// The options a Discover carries, in order: its type, the parameter-request
/// list asking for subnet mask and router, the size limit, and the client
/// identifier (the hardware address).
pub open spec fn discover_options(mac: Seq<u8>) -> Seq<Opt4> {
    seq![
        Opt4::MessageType(MessageType::Discover),
        Opt4::ParameterRequestList(seq![1u8, 3u8]),
        Opt4::MaxMessageSize(MAX_MESSAGE_SIZE),
        Opt4::ClientIdentifier(mac),
    ]
}

/// The Discover message: a broadcast request with all addresses zero.
pub open spec fn discover_msg(mac: Seq<u8>) -> Msg4 {
    Msg4 {
        opcode: OPCODE_REQUEST,
        htype: 1,
        xid: 0,
        flags: FLAG_BROADCAST,
        ciaddr: 0,
        yiaddr: 0,
        siaddr: 0,
        giaddr: 0,
        chaddr: mac,
        options: discover_options(mac),
    }
}

/// The provider's vendor block sent with a Request: the enterprise number,
/// then sub-option 7 holding the six-byte hardware address.
pub open spec fn vendor_block_bytes(mac: Seq<u8>) -> Seq<u8> {
    u32_bytes(VENDOR_CODE_NTT) + seq![7u8, 6u8] + mac
}

/// The options a Request carries, in order. `Select` echoes the offered
/// address and the chosen server; `InitReboot` echoes the address alone;
/// `Renew` and `Rebind` carry neither.
pub open spec fn request_options(
    kind: Dhcp4RequestType,
    req_ip: u32,
    server_id: u32,
    mac: Seq<u8>,
) -> Seq<Opt4> {
    let head = seq![Opt4::MessageType(MessageType::Request)];
    let mid = if kind == Dhcp4RequestType::Select {
        seq![Opt4::RequestedIpAddress(req_ip), Opt4::ServerIdentifier(server_id)]
    } else if kind == Dhcp4RequestType::InitReboot {
        seq![Opt4::RequestedIpAddress(req_ip)]
    } else {
        Seq::empty()
    };
    let tail = seq![
        Opt4::ParameterRequestList(seq![1u8, 3u8, 120u8, 121u8, 125u8]),
        Opt4::MaxMessageSize(MAX_MESSAGE_SIZE),
        Opt4::ClientIdentifier(mac),
        Opt4::Unknown(125, vendor_block_bytes(mac)),
    ];
    head + mid + tail
}

/// The Request message. `Renew` and `Rebind` place the client address in the
/// header's client-IP field; every other header address stays zero, the
/// chosen server appearing only as the ServerIdentifier option.
pub open spec fn request_msg(
    kind: Dhcp4RequestType,
    req_ip: u32,
    server_id: u32,
    mac: Seq<u8>,
) -> Msg4 {
    Msg4 {
        opcode: OPCODE_REQUEST,
        htype: 1,
        xid: 0,
        flags: FLAG_BROADCAST,
        ciaddr: if kind == Dhcp4RequestType::Renew || kind == Dhcp4RequestType::Rebind {
            req_ip
        } else {
            0
        },
        yiaddr: 0,
        siaddr: 0,
        giaddr: 0,
        chaddr: mac,
        options: request_options(kind, req_ip, server_id, mac),
    }
}

/// Copy a hardware address into a byte vector.
fn mac_vec(mac: &[u8; 6]) -> (r: Vec<u8>)
    ensures
        r@ == mac@,
{
    let mut r: Vec<u8> = Vec::new();
    r.push(mac[0]);
    r.push(mac[1]);
    r.push(mac[2]);
    r.push(mac[3]);
    r.push(mac[4]);
    r.push(mac[5]);
    assert(r@ =~= mac@);
    r
}

/// Every option of a Discover is well formed.
proof fn lemma_discover_wf(mac: Seq<u8>)
    requires
        mac.len() == 6,
    ensures
        wf_msg4(discover_msg(mac)),
{
    let opts = discover_options(mac);
    assert(wf_opt4(opts[0]));
    assert(wf_opt4(opts[1]));
    assert(wf_opt4(opts[2]));
    assert(wf_opt4(opts[3]));
    assert(forall|i: int| 0 <= i < opts.len() ==> wf_opt4(#[trigger] opts[i]));
}

/// Every option of every Request variant is well formed.
proof fn lemma_request_wf(kind: Dhcp4RequestType, req_ip: u32, server_id: u32, mac: Seq<u8>)
    requires
        mac.len() == 6,
    ensures
        wf_msg4(request_msg(kind, req_ip, server_id, mac)),
{
    let opts = request_options(kind, req_ip, server_id, mac);
    assert(vendor_block_bytes(mac).len() == 12);
    assert forall|i: int| 0 <= i < opts.len() implies wf_opt4(#[trigger] opts[i]) by {
        if kind == Dhcp4RequestType::Select {
            assert(opts.len() == 7);
            assert(wf_opt4(opts[0]));
            assert(wf_opt4(opts[1]));
            assert(wf_opt4(opts[2]));
            assert(wf_opt4(opts[3]));
            assert(wf_opt4(opts[4]));
            assert(wf_opt4(opts[5]));
            assert(wf_opt4(opts[6]));
        } else if kind == Dhcp4RequestType::InitReboot {
            assert(opts.len() == 6);
            assert(wf_opt4(opts[0]));
            assert(wf_opt4(opts[1]));
            assert(wf_opt4(opts[2]));
            assert(wf_opt4(opts[3]));
            assert(wf_opt4(opts[4]));
            assert(wf_opt4(opts[5]));
        } else {
            assert(opts.len() == 5);
            assert(wf_opt4(opts[0]));
            assert(wf_opt4(opts[1]));
            assert(wf_opt4(opts[2]));
            assert(wf_opt4(opts[3]));
            assert(wf_opt4(opts[4]));
        }
    }
}

/// Build the Discover for the exchange's first step.
pub fn discover(mac: &[u8; 6]) -> (m: Dhcp4Message)
    ensures
        m@ == discover_msg(mac@),
        wf_msg4(m@),
{
    let mut options: Vec<Dhcp4Option> = Vec::new();
    options.push(Dhcp4Option::MessageType(MessageType::Discover));
    let mut prl: Vec<u8> = Vec::new();
    prl.push(1u8);
    prl.push(3u8);
    assert(prl@ =~= seq![1u8, 3u8]);
    options.push(Dhcp4Option::ParameterRequestList(prl));
    options.push(Dhcp4Option::MaxMessageSize(MAX_MESSAGE_SIZE));
    options.push(Dhcp4Option::ClientIdentifier(mac_vec(mac)));
    let m = Dhcp4Message {
        opcode: OPCODE_REQUEST,
        htype: 1,
        xid: 0,
        flags: FLAG_BROADCAST,
        ciaddr: 0,
        yiaddr: 0,
        siaddr: 0,
        giaddr: 0,
        chaddr: *mac,
        options,
    };
    proof {
        assert(m@.options =~~= discover_options(mac@));
        assert(m@ =~~= discover_msg(mac@));
        lemma_discover_wf(mac@);
    }
    m
}

/// Build the Request for the exchange's third step, varying the header
/// addressing and the echoed options by the request kind.
pub fn request(
    kind: Dhcp4RequestType,
    req_ip: u32,
    server_id: u32,
    mac: &[u8; 6],
) -> (m: Dhcp4Message)
    ensures
        m@ == request_msg(kind, req_ip, server_id, mac@),
        wf_msg4(m@),
{
    let mut options: Vec<Dhcp4Option> = Vec::new();
    options.push(Dhcp4Option::MessageType(MessageType::Request));
    match kind {
        Dhcp4RequestType::Select => {
            options.push(Dhcp4Option::RequestedIpAddress(req_ip));
            options.push(Dhcp4Option::ServerIdentifier(server_id));
        },
        Dhcp4RequestType::InitReboot => {
            options.push(Dhcp4Option::RequestedIpAddress(req_ip));
        },
        _ => {},
    }
    let mut prl: Vec<u8> = Vec::new();
    prl.push(1u8);
    prl.push(3u8);
    prl.push(120u8);
    prl.push(121u8);
    prl.push(125u8);
    assert(prl@ =~= seq![1u8, 3u8, 120u8, 121u8, 125u8]);
    options.push(Dhcp4Option::ParameterRequestList(prl));
    options.push(Dhcp4Option::MaxMessageSize(MAX_MESSAGE_SIZE));
    options.push(Dhcp4Option::ClientIdentifier(mac_vec(mac)));
    let mut vendor: Vec<u8> = Vec::new();
    push_u32(&mut vendor, VENDOR_CODE_NTT);
    vendor.push(7u8);
    vendor.push(6u8);
    let mut k: usize = 0;
    while k < 6
        invariant
            k <= 6,
            vendor@ == u32_bytes(VENDOR_CODE_NTT) + seq![7u8, 6u8] + mac@.take(k as int),
        decreases 6 - k,
    {
        vendor.push(mac[k]);
        assert(vendor@ =~= u32_bytes(VENDOR_CODE_NTT) + seq![7u8, 6u8] + mac@.take(k as int + 1));
        k = k + 1;
    }
    assert(mac@.take(6) =~= mac@);
    assert(vendor@ =~= vendor_block_bytes(mac@));
    options.push(Dhcp4Option::Unknown(125, vendor));
    let ci = match kind {
        Dhcp4RequestType::Renew => req_ip,
        Dhcp4RequestType::Rebind => req_ip,
        _ => 0,
    };
    let m = Dhcp4Message {
        opcode: OPCODE_REQUEST,
        htype: 1,
        xid: 0,
        flags: FLAG_BROADCAST,
        ciaddr: ci,
        yiaddr: 0,
        siaddr: 0,
        giaddr: 0,
        chaddr: *mac,
        options,
    };
    proof {
        assert(m@.options =~~= request_options(kind, req_ip, server_id, mac@));
        assert(m@ =~~= request_msg(kind, req_ip, server_id, mac@));
        lemma_request_wf(kind, req_ip, server_id, mac@);
    }
    m
}

/// Whether this request is sent to the server directly rather than broadcast:
/// only a renewal addresses the known server.
pub fn should_unicast(kind: Dhcp4RequestType) -> (r: bool)
    ensures
        r == (kind == Dhcp4RequestType::Renew),
{
    match kind {
        Dhcp4RequestType::Renew => true,
        _ => false,
    }
}

/// Round trip of the Discover: decoding its encoding reproduces the message,
/// every inserted option included.
pub proof fn lemma_discover_roundtrip(mac: Seq<u8>)
    requires
        mac.len() == 6,
    ensures
        spec_decode4(spec_encode4(discover_msg(mac))) == Ok::<Msg4, Dhcp4Error>(discover_msg(mac)),
{
    lemma_discover_wf(mac);
    lemma_encode4_decode4(discover_msg(mac));
}

/// Round trip of every Request variant: decoding the encoding reproduces the
/// message, every inserted option included.
pub proof fn lemma_request_roundtrip(
    kind: Dhcp4RequestType,
    req_ip: u32,
    server_id: u32,
    mac: Seq<u8>,
)
    requires
        mac.len() == 6,
    ensures
        spec_decode4(spec_encode4(request_msg(kind, req_ip, server_id, mac))) == Ok::<
            Msg4,
            Dhcp4Error,
        >(request_msg(kind, req_ip, server_id, mac)),
{
    lemma_request_wf(kind, req_ip, server_id, mac);
    lemma_encode4_decode4(request_msg(kind, req_ip, server_id, mac));
}

} // verus!
