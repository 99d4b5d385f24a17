//! DHCPv4 data model: messages, the typed option catalog, their ghost views,
//! well-formedness, and the specification-level wire encoding and decoding
//! that the executable codec is proved against.

use vstd::prelude::*;

use crate::wire::{be16_at, be32, be32_at, u16_bytes, u32_bytes, zero_bytes};

verus! {

/// UDP port this client binds (BOOTP client).
pub const CLIENT_PORT: u16 = 68;

/// UDP port the server listens on (BOOTP server).
pub const SERVER_PORT: u16 = 67;

/// IANA enterprise number of the provider whose vendor block is interpreted.
pub const VENDOR_CODE_NTT: u32 = 210;

/// BOOTP opcode of a client request.
pub const OPCODE_REQUEST: u8 = 1;

/// BOOTP opcode of a server reply.
pub const OPCODE_REPLY: u8 = 2;

/// DHCPv4 message type, option 53.
#[derive(Clone, Copy, Debug, PartialEq, Eq, Structural)]
pub enum MessageType {
    Discover,
    Offer,
    Request,
    Decline,
    Ack,
    Nak,
    Release,
    Inform,
    Other(u8),
}

/// Wire code of a message type.
pub open spec fn spec_msg_type_code(t: MessageType) -> u8 {
    match t {
        MessageType::Discover => 1,
        MessageType::Offer => 2,
        MessageType::Request => 3,
        MessageType::Decline => 4,
        MessageType::Ack => 5,
        MessageType::Nak => 6,
        MessageType::Release => 7,
        MessageType::Inform => 8,
        MessageType::Other(c) => c,
    }
}

/// Message type of a wire code.
pub open spec fn spec_msg_type_of(c: u8) -> MessageType {
    if c == 1 {
        MessageType::Discover
    } else if c == 2 {
        MessageType::Offer
    } else if c == 3 {
        MessageType::Request
    } else if c == 4 {
        MessageType::Decline
    } else if c == 5 {
        MessageType::Ack
    } else if c == 6 {
        MessageType::Nak
    } else if c == 7 {
        MessageType::Release
    } else if c == 8 {
        MessageType::Inform
    } else {
        MessageType::Other(c)
    }
}

/// Wire code of a message type.
#[verifier::when_used_as_spec(spec_msg_type_code)]
pub fn msg_type_code(t: MessageType) -> (r: u8)
    ensures
        r == spec_msg_type_code(t),
{
    match t {
        MessageType::Discover => 1,
        MessageType::Offer => 2,
        MessageType::Request => 3,
        MessageType::Decline => 4,
        MessageType::Ack => 5,
        MessageType::Nak => 6,
        MessageType::Release => 7,
        MessageType::Inform => 8,
        MessageType::Other(c) => c,
    }
}

/// Message type of a wire code.
#[verifier::when_used_as_spec(spec_msg_type_of)]
pub fn msg_type_of(c: u8) -> (r: MessageType)
    ensures
        r == spec_msg_type_of(c),
{
    match c {
        1 => MessageType::Discover,
        2 => MessageType::Offer,
        3 => MessageType::Request,
        4 => MessageType::Decline,
        5 => MessageType::Ack,
        6 => MessageType::Nak,
        7 => MessageType::Release,
        8 => MessageType::Inform,
        _ => MessageType::Other(c),
    }
}

/// One classless static route: a destination prefix and its gateway.
#[derive(Clone, Copy, Debug, PartialEq, Eq, Structural)]
pub struct Dhcp4Route {
    pub prefix_addr: u32,
    pub prefix_len: u8,
    pub gateway: u32,
}

/// The typed DHCPv4 option catalog. Addresses are big-endian 32-bit values;
/// codes the catalog does not model structurally are kept as `Unknown`.
#[derive(Clone, Debug, PartialEq, Eq)]
pub enum Dhcp4Option {
    SubnetMask(u32),
    Router(Vec<u32>),
    RequestedIpAddress(u32),
    AddressLeaseTime(u32),
    MessageType(MessageType),
    ServerIdentifier(u32),
    ParameterRequestList(Vec<u8>),
    MaxMessageSize(u16),
    Renewal(u32),
    Rebinding(u32),
    ClientIdentifier(Vec<u8>),
    ClasslessStaticRoute(Vec<Dhcp4Route>),
    Unknown(u8, Vec<u8>),
}

/// Ghost view of `Dhcp4Option`, with mathematical sequences for the lists.
#[verifier::ext_equal]
pub enum Opt4 {
    SubnetMask(u32),
    Router(Seq<u32>),
    RequestedIpAddress(u32),
    AddressLeaseTime(u32),
    MessageType(MessageType),
    ServerIdentifier(u32),
    ParameterRequestList(Seq<u8>),
    MaxMessageSize(u16),
    Renewal(u32),
    Rebinding(u32),
    ClientIdentifier(Seq<u8>),
    ClasslessStaticRoute(Seq<Dhcp4Route>),
    Unknown(u8, Seq<u8>),
}

impl View for Dhcp4Option {
    type V = Opt4;

    open spec fn view(&self) -> Opt4 {
        match self {
            Dhcp4Option::SubnetMask(x) => Opt4::SubnetMask(*x),
            Dhcp4Option::Router(a) => Opt4::Router(a@),
            Dhcp4Option::RequestedIpAddress(x) => Opt4::RequestedIpAddress(*x),
            Dhcp4Option::AddressLeaseTime(x) => Opt4::AddressLeaseTime(*x),
            Dhcp4Option::MessageType(t) => Opt4::MessageType(*t),
            Dhcp4Option::ServerIdentifier(x) => Opt4::ServerIdentifier(*x),
            Dhcp4Option::ParameterRequestList(c) => Opt4::ParameterRequestList(c@),
            Dhcp4Option::MaxMessageSize(x) => Opt4::MaxMessageSize(*x),
            Dhcp4Option::Renewal(x) => Opt4::Renewal(*x),
            Dhcp4Option::Rebinding(x) => Opt4::Rebinding(*x),
            Dhcp4Option::ClientIdentifier(b) => Opt4::ClientIdentifier(b@),
            Dhcp4Option::ClasslessStaticRoute(r) => Opt4::ClasslessStaticRoute(r@),
            Dhcp4Option::Unknown(c, d) => Opt4::Unknown(*c, d@),
        }
    }
}

impl DeepView for Dhcp4Option {
    type V = Opt4;

    open spec fn deep_view(&self) -> Opt4 {
        self.view()
    }
}

/// A DHCPv4 message: the fixed BOOTP header fields this client uses, plus
/// the option set in insertion order.
#[derive(Clone, Debug, PartialEq, Eq)]
pub struct Dhcp4Message {
    pub opcode: u8,
    pub htype: u8,
    pub xid: u32,
    pub flags: u16,
    pub ciaddr: u32,
    pub yiaddr: u32,
    pub siaddr: u32,
    pub giaddr: u32,
    pub chaddr: [u8; 6],
    pub options: Vec<Dhcp4Option>,
}

/// Ghost view of `Dhcp4Message`.
#[verifier::ext_equal]
pub struct Msg4 {
    pub opcode: u8,
    pub htype: u8,
    pub xid: u32,
    pub flags: u16,
    pub ciaddr: u32,
    pub yiaddr: u32,
    pub siaddr: u32,
    pub giaddr: u32,
    pub chaddr: Seq<u8>,
    pub options: Seq<Opt4>,
}

impl View for Dhcp4Message {
    type V = Msg4;

    open spec fn view(&self) -> Msg4 {
        Msg4 {
            opcode: self.opcode,
            htype: self.htype,
            xid: self.xid,
            flags: self.flags,
            ciaddr: self.ciaddr,
            yiaddr: self.yiaddr,
            siaddr: self.siaddr,
            giaddr: self.giaddr,
            chaddr: self.chaddr@,
            options: self.options.deep_view(),
        }
    }
}

/// Errors of one receive attempt: the datagram is structurally not a
/// message (decode), or a well-formed message fails a protocol check.
#[derive(Clone, Copy, Debug, PartialEq, Eq, Structural)]
pub enum Dhcp4Error {
    /// The buffer is shorter than a header, or an option overruns it.
    Truncated,
    /// The magic cookie after the fixed header is wrong.
    BadMagic,
    /// The message is not a BOOTP reply.
    NotReply,
    /// The message type differs from the one the caller expected.
    WrongMessageType,
}

/// The four ways a v4 Request is addressed.
#[derive(Clone, Copy, Debug, PartialEq, Eq, Structural)]
pub enum Dhcp4RequestType {
    Select,
    InitReboot,
    Renew,
    Rebind,
}

// ---------------------------------------------------------------------------
// Wire encoding, at the specification level.
// ---------------------------------------------------------------------------

/// Wire code of a typed option.
pub open spec fn opt4_code(o: Opt4) -> u8 {
    match o {
        Opt4::SubnetMask(_) => 1,
        Opt4::Router(_) => 3,
        Opt4::RequestedIpAddress(_) => 50,
        Opt4::AddressLeaseTime(_) => 51,
        Opt4::MessageType(_) => 53,
        Opt4::ServerIdentifier(_) => 54,
        Opt4::ParameterRequestList(_) => 55,
        Opt4::MaxMessageSize(_) => 57,
        Opt4::Renewal(_) => 58,
        Opt4::Rebinding(_) => 59,
        Opt4::ClientIdentifier(_) => 61,
        Opt4::ClasslessStaticRoute(_) => 121,
        Opt4::Unknown(c, _) => c,
    }
}

/// Whether a wire code belongs to the typed catalog.
pub open spec fn is_catalog4(c: u8) -> bool {
    c == 1 || c == 3 || c == 50 || c == 51 || c == 53 || c == 54 || c == 55 || c == 57 || c == 58
        || c == 59 || c == 61 || c == 121
}

/// Concatenated big-endian encoding of an address list.
pub open spec fn addrs4_bytes(a: Seq<u32>) -> Seq<u8>
    decreases a.len(),
{
    if a.len() == 0 {
        Seq::empty()
    } else {
        u32_bytes(a[0]) + addrs4_bytes(a.skip(1))
    }
}

/// Number of significant network-address octets of a prefix length.
pub open spec fn route_octets(p: u8) -> int {
    (p + 7) / 8
}

/// Compact encoding of one classless route: prefix length, the significant
/// network octets only, then the gateway.
pub open spec fn route_bytes(r: Dhcp4Route) -> Seq<u8> {
    seq![r.prefix_len] + u32_bytes(r.prefix_addr).take(route_octets(r.prefix_len)) + u32_bytes(
        r.gateway,
    )
}

/// Concatenated encoding of a route list.
pub open spec fn routes_bytes(rs: Seq<Dhcp4Route>) -> Seq<u8>
    decreases rs.len(),
{
    if rs.len() == 0 {
        Seq::empty()
    } else {
        route_bytes(rs[0]) + routes_bytes(rs.skip(1))
    }
}

/// Payload bytes of one option (without the code and length bytes).
pub open spec fn opt4_payload(o: Opt4) -> Seq<u8> {
    match o {
        Opt4::SubnetMask(x) => u32_bytes(x),
        Opt4::Router(a) => addrs4_bytes(a),
        Opt4::RequestedIpAddress(x) => u32_bytes(x),
        Opt4::AddressLeaseTime(x) => u32_bytes(x),
        Opt4::MessageType(t) => seq![spec_msg_type_code(t)],
        Opt4::ServerIdentifier(x) => u32_bytes(x),
        Opt4::ParameterRequestList(c) => c,
        Opt4::MaxMessageSize(x) => u16_bytes(x),
        Opt4::Renewal(x) => u32_bytes(x),
        Opt4::Rebinding(x) => u32_bytes(x),
        Opt4::ClientIdentifier(b) => b,
        Opt4::ClasslessStaticRoute(rs) => routes_bytes(rs),
        Opt4::Unknown(_, d) => d,
    }
}

/// Encoding of one option: code, payload length, payload.
pub open spec fn enc_opt4(o: Opt4) -> Seq<u8> {
    seq![opt4_code(o), opt4_payload(o).len() as u8] + opt4_payload(o)
}

/// Encoding of an option list, in order.
pub open spec fn enc_opts4(s: Seq<Opt4>) -> Seq<u8>
    decreases s.len(),
{
    if s.len() == 0 {
        Seq::empty()
    } else {
        enc_opt4(s[0]) + enc_opts4(s.skip(1))
    }
}

/// The magic cookie that separates the BOOTP header from the options.
pub open spec fn magic4() -> Seq<u8> {
    seq![0x63u8, 0x82u8, 0x53u8, 0x63u8]
}

/// The 236-byte fixed header followed by the magic cookie.
pub open spec fn header4_bytes(m: Msg4) -> Seq<u8> {
    seq![m.opcode, m.htype, 6u8, 0u8] + u32_bytes(m.xid) + seq![0u8, 0u8] + u16_bytes(m.flags)
        + u32_bytes(m.ciaddr) + u32_bytes(m.yiaddr) + u32_bytes(m.siaddr) + u32_bytes(m.giaddr)
        + m.chaddr + zero_bytes(10) + zero_bytes(64) + zero_bytes(128) + magic4()
}

/// Complete wire encoding of a message: header, options, end option.
pub open spec fn spec_encode4(m: Msg4) -> Seq<u8> {
    header4_bytes(m) + enc_opts4(m.options) + seq![255u8]
}

// ---------------------------------------------------------------------------
// Well-formedness: what the encoder requires and the round trip preserves.
// ---------------------------------------------------------------------------

/// A route is canonical when the prefix length fits an IPv4 address and the
/// network-address octets beyond the significant ones are zero.
pub open spec fn wf_route(r: Dhcp4Route) -> bool {
    r.prefix_len <= 32 && forall|k: int|
        route_octets(r.prefix_len) <= k < 4 ==> u32_bytes(r.prefix_addr)[k] == 0
}

/// A typed option is well formed when its payload fits one option frame and
/// its value is canonical, so that decoding its encoding gives it back.
pub open spec fn wf_opt4(o: Opt4) -> bool {
    match o {
        Opt4::Router(a) => 4 * a.len() <= 255,
        Opt4::MessageType(t) => spec_msg_type_of(spec_msg_type_code(t)) == t,
        Opt4::ParameterRequestList(c) => c.len() <= 255,
        Opt4::ClientIdentifier(b) => 0 < b.len() <= 255,
        Opt4::ClasslessStaticRoute(rs) => routes_bytes(rs).len() <= 255 && (forall|i: int|
            0 <= i < rs.len() ==> wf_route(rs[i])),
        Opt4::Unknown(c, d) => !is_catalog4(c) && c != 0 && c != 255 && d.len() <= 255,
        _ => true,
    }
}

/// A message is well formed when its hardware address is six bytes long and
/// every option is.
pub open spec fn wf_msg4(m: Msg4) -> bool {
    m.chaddr.len() == 6 && forall|i: int| 0 <= i < m.options.len() ==> wf_opt4(#[trigger] m.options[i])
}

// ---------------------------------------------------------------------------
// Wire decoding, at the specification level.
// ---------------------------------------------------------------------------

/// Parsed value of a router-style payload: one address per four bytes.
pub open spec fn parse_addrs4(d: Seq<u8>) -> Seq<u32> {
    Seq::new((d.len() / 4) as nat, |i: int| be32_at(d, 4 * i))
}

/// The `k`-th network-address byte of a compact route entry: taken from the
/// wire when significant, zero otherwise.
pub open spec fn route_net_byte(d: Seq<u8>, base: int, n: int, k: int) -> u8 {
    if k < n {
        d[base + k]
    } else {
        0u8
    }
}

/// Parse a classless-route payload from `i` on, accumulating into `acc`.
/// `None` when an entry is malformed or overruns the payload.
pub open spec fn dec_routes(d: Seq<u8>, i: int, acc: Seq<Dhcp4Route>) -> Option<Seq<Dhcp4Route>>
    decreases d.len() - i,
{
    if i >= d.len() {
        Some(acc)
    } else {
        let p = d[i];
        if p > 32 {
            None
        } else {
            let n = route_octets(p);
            if i + 1 + n + 4 > d.len() {
                None
            } else {
                let r = Dhcp4Route {
                    prefix_addr: be32(
                        route_net_byte(d, i + 1, n, 0),
                        route_net_byte(d, i + 1, n, 1),
                        route_net_byte(d, i + 1, n, 2),
                        route_net_byte(d, i + 1, n, 3),
                    ),
                    prefix_len: p,
                    gateway: be32_at(d, i + 1 + n),
                };
                dec_routes(d, i + 1 + n + 4, acc.push(r))
            }
        }
    }
}

/// Parse one option payload. `None` when a typed payload is structurally
/// invalid; that option is skipped, not an error.
pub open spec fn parse_opt4(code: u8, d: Seq<u8>) -> Option<Opt4> {
    if code == 1 {
        if d.len() == 4 {
            Some(Opt4::SubnetMask(be32_at(d, 0)))
        } else {
            None
        }
    } else if code == 3 {
        if d.len() % 4 == 0 {
            Some(Opt4::Router(parse_addrs4(d)))
        } else {
            None
        }
    } else if code == 50 {
        if d.len() == 4 {
            Some(Opt4::RequestedIpAddress(be32_at(d, 0)))
        } else {
            None
        }
    } else if code == 51 {
        if d.len() == 4 {
            Some(Opt4::AddressLeaseTime(be32_at(d, 0)))
        } else {
            None
        }
    } else if code == 53 {
        if d.len() == 1 {
            Some(Opt4::MessageType(spec_msg_type_of(d[0])))
        } else {
            None
        }
    } else if code == 54 {
        if d.len() == 4 {
            Some(Opt4::ServerIdentifier(be32_at(d, 0)))
        } else {
            None
        }
    } else if code == 55 {
        Some(Opt4::ParameterRequestList(d))
    } else if code == 57 {
        if d.len() == 2 {
            Some(Opt4::MaxMessageSize(be16_at(d, 0)))
        } else {
            None
        }
    } else if code == 58 {
        if d.len() == 4 {
            Some(Opt4::Renewal(be32_at(d, 0)))
        } else {
            None
        }
    } else if code == 59 {
        if d.len() == 4 {
            Some(Opt4::Rebinding(be32_at(d, 0)))
        } else {
            None
        }
    } else if code == 61 {
        if d.len() > 0 {
            Some(Opt4::ClientIdentifier(d))
        } else {
            None
        }
    } else if code == 121 {
        match dec_routes(d, 0, Seq::empty()) {
            Some(rs) => Some(Opt4::ClasslessStaticRoute(rs)),
            None => None,
        }
    } else {
        Some(Opt4::Unknown(code, d))
    }
}

/// Walk the option region from `i` on: a pad byte is skipped, the end option
/// stops the walk, and an option whose declared length overruns the buffer is
/// a truncation. A typed option with an invalid payload is skipped.
pub open spec fn dec_opts4(b: Seq<u8>, i: int, acc: Seq<Opt4>) -> Option<Seq<Opt4>>
    decreases b.len() - i,
{
    if i >= b.len() {
        Some(acc)
    } else if b[i] == 255 {
        Some(acc)
    } else if b[i] == 0 {
        dec_opts4(b, i + 1, acc)
    } else if i + 2 > b.len() {
        None
    } else {
        let l = b[i + 1] as int;
        if i + 2 + l > b.len() {
            None
        } else {
            let acc2 = match parse_opt4(b[i], b.subrange(i + 2, i + 2 + l)) {
                Some(o) => acc.push(o),
                None => acc,
            };
            dec_opts4(b, i + 2 + l, acc2)
        }
    }
}

/// Decode a complete datagram: fixed header, magic cookie, option region.
pub open spec fn spec_decode4(b: Seq<u8>) -> Result<Msg4, Dhcp4Error> {
    if b.len() < 240 {
        Err(Dhcp4Error::Truncated)
    } else if b.subrange(236, 240) != magic4() {
        Err(Dhcp4Error::BadMagic)
    } else {
        match dec_opts4(b, 240, Seq::empty()) {
            Some(opts) => Ok(
                Msg4 {
                    opcode: b[0],
                    htype: b[1],
                    xid: be32_at(b, 4),
                    flags: be16_at(b, 10),
                    ciaddr: be32_at(b, 12),
                    yiaddr: be32_at(b, 16),
                    siaddr: be32_at(b, 20),
                    giaddr: be32_at(b, 24),
                    chaddr: b.subrange(28, 34),
                    options: opts,
                },
            ),
            None => Err(Dhcp4Error::Truncated),
        }
    }
}

} // verus!
