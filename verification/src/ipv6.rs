//! DHCPv6 data model: messages, the typed option catalog with its nested
//! prefix-delegation containers, their ghost views, well-formedness, and the
//! specification-level wire encoding and decoding.

use vstd::prelude::*;

use crate::wire::{be16_at, be32_at, u16_bytes, u32_bytes};

verus! {

/// UDP port this client binds.
pub const CLIENT_PORT: u16 = 546;

/// UDP port the servers and relays listen on.
pub const SERVER_PORT: u16 = 547;

/// IANA enterprise number of the provider whose vendor class is sent.
pub const VENDOR_CODE_NTT: u32 = 210;

/// Status code carried by a successful status option.
pub const STATUS_SUCCESS: u16 = 0;

/// DHCPv6 message type.
#[derive(Clone, Copy, Debug, PartialEq, Eq, Structural)]
pub enum MessageType {
    Solicit,
    Advertise,
    Request,
    Confirm,
    Renew,
    Rebind,
    Reply,
    Release,
    Decline,
    Reconfigure,
    InformationRequest,
    Other(u8),
}

/// Wire code of a message type.
pub open spec fn spec_msg_type6_code(t: MessageType) -> u8 {
    match t {
        MessageType::Solicit => 1,
        MessageType::Advertise => 2,
        MessageType::Request => 3,
        MessageType::Confirm => 4,
        MessageType::Renew => 5,
        MessageType::Rebind => 6,
        MessageType::Reply => 7,
        MessageType::Release => 8,
        MessageType::Decline => 9,
        MessageType::Reconfigure => 10,
        MessageType::InformationRequest => 11,
        MessageType::Other(c) => c,
    }
}

/// Message type of a wire code.
pub open spec fn spec_msg_type6_of(c: u8) -> MessageType {
    if c == 1 {
        MessageType::Solicit
    } else if c == 2 {
        MessageType::Advertise
    } else if c == 3 {
        MessageType::Request
    } else if c == 4 {
        MessageType::Confirm
    } else if c == 5 {
        MessageType::Renew
    } else if c == 6 {
        MessageType::Rebind
    } else if c == 7 {
        MessageType::Reply
    } else if c == 8 {
        MessageType::Release
    } else if c == 9 {
        MessageType::Decline
    } else if c == 10 {
        MessageType::Reconfigure
    } else if c == 11 {
        MessageType::InformationRequest
    } else {
        MessageType::Other(c)
    }
}

/// Wire code of a message type.
#[verifier::when_used_as_spec(spec_msg_type6_code)]
pub fn msg_type6_code(t: MessageType) -> (r: u8)
    ensures
        r == spec_msg_type6_code(t),
{
    match t {
        MessageType::Solicit => 1,
        MessageType::Advertise => 2,
        MessageType::Request => 3,
        MessageType::Confirm => 4,
        MessageType::Renew => 5,
        MessageType::Rebind => 6,
        MessageType::Reply => 7,
        MessageType::Release => 8,
        MessageType::Decline => 9,
        MessageType::Reconfigure => 10,
        MessageType::InformationRequest => 11,
        MessageType::Other(c) => c,
    }
}

/// Message type of a wire code.
#[verifier::when_used_as_spec(spec_msg_type6_of)]
pub fn msg_type6_of(c: u8) -> (r: MessageType)
    ensures
        r == spec_msg_type6_of(c),
{
    match c {
        1 => MessageType::Solicit,
        2 => MessageType::Advertise,
        3 => MessageType::Request,
        4 => MessageType::Confirm,
        5 => MessageType::Renew,
        6 => MessageType::Rebind,
        7 => MessageType::Reply,
        8 => MessageType::Release,
        9 => MessageType::Decline,
        10 => MessageType::Reconfigure,
        11 => MessageType::InformationRequest,
        _ => MessageType::Other(c),
    }
}

/// One domain name as its label sequence.
#[derive(Clone, Debug, PartialEq, Eq)]
pub struct DomainName {
    pub labels: Vec<Vec<u8>>,
}

impl View for DomainName {
    type V = Seq<Seq<u8>>;

    open spec fn view(&self) -> Seq<Seq<u8>> {
        self.labels.deep_view()
    }
}

impl DeepView for DomainName {
    type V = Seq<Seq<u8>>;

    open spec fn deep_view(&self) -> Seq<Seq<u8>> {
        self.view()
    }
}

/// An option nested inside an IA-Prefix container.
#[derive(Clone, Debug, PartialEq, Eq)]
pub enum PrefixOpt {
    Status(u16, Vec<u8>),
    Other(u16, Vec<u8>),
}

/// Ghost view of `PrefixOpt`.
#[verifier::ext_equal]
pub enum PrefixOptV {
    Status(u16, Seq<u8>),
    Other(u16, Seq<u8>),
}

impl View for PrefixOpt {
    type V = PrefixOptV;

    open spec fn view(&self) -> PrefixOptV {
        match self {
            PrefixOpt::Status(st, m) => PrefixOptV::Status(*st, m@),
            PrefixOpt::Other(c, d) => PrefixOptV::Other(*c, d@),
        }
    }
}

impl DeepView for PrefixOpt {
    type V = PrefixOptV;

    open spec fn deep_view(&self) -> PrefixOptV {
        self.view()
    }
}

/// One delegated prefix offered inside an IA-PD container.
#[derive(Clone, Debug, PartialEq, Eq)]
pub struct IaPrefix {
    pub preferred_lifetime: u32,
    pub valid_lifetime: u32,
    pub prefix_len: u8,
    pub prefix_ip: [u8; 16],
    pub opts: Vec<PrefixOpt>,
}

/// Ghost view of `IaPrefix`.
#[verifier::ext_equal]
pub struct IaPrefixV {
    pub preferred_lifetime: u32,
    pub valid_lifetime: u32,
    pub prefix_len: u8,
    pub prefix_ip: Seq<u8>,
    pub opts: Seq<PrefixOptV>,
}

impl View for IaPrefix {
    type V = IaPrefixV;

    open spec fn view(&self) -> IaPrefixV {
        IaPrefixV {
            preferred_lifetime: self.preferred_lifetime,
            valid_lifetime: self.valid_lifetime,
            prefix_len: self.prefix_len,
            prefix_ip: self.prefix_ip@,
            opts: self.opts.deep_view(),
        }
    }
}

impl DeepView for IaPrefix {
    type V = IaPrefixV;

    open spec fn deep_view(&self) -> IaPrefixV {
        self.view()
    }
}

/// An option nested inside an IA-PD container.
#[derive(Clone, Debug, PartialEq, Eq)]
pub enum PdOpt {
    Prefix(IaPrefix),
    Status(u16, Vec<u8>),
    Other(u16, Vec<u8>),
}

/// Ghost view of `PdOpt`.
#[verifier::ext_equal]
pub enum PdOptV {
    Prefix(IaPrefixV),
    Status(u16, Seq<u8>),
    Other(u16, Seq<u8>),
}

impl View for PdOpt {
    type V = PdOptV;

    open spec fn view(&self) -> PdOptV {
        match self {
            PdOpt::Prefix(p) => PdOptV::Prefix(p.view()),
            PdOpt::Status(st, m) => PdOptV::Status(*st, m@),
            PdOpt::Other(c, d) => PdOptV::Other(*c, d@),
        }
    }
}

impl DeepView for PdOpt {
    type V = PdOptV;

    open spec fn deep_view(&self) -> PdOptV {
        self.view()
    }
}

/// The IA-PD container negotiating one delegated prefix block.
#[derive(Clone, Debug, PartialEq, Eq)]
pub struct IaPd {
    pub id: u32,
    pub t1: u32,
    pub t2: u32,
    pub opts: Vec<PdOpt>,
}

/// Ghost view of `IaPd`.
#[verifier::ext_equal]
pub struct IaPdV {
    pub id: u32,
    pub t1: u32,
    pub t2: u32,
    pub opts: Seq<PdOptV>,
}

impl View for IaPd {
    type V = IaPdV;

    open spec fn view(&self) -> IaPdV {
        IaPdV { id: self.id, t1: self.t1, t2: self.t2, opts: self.opts.deep_view() }
    }
}

/// The typed DHCPv6 option catalog. Addresses are 16-byte arrays; codes the
/// catalog does not model structurally (among them the SIP and SNTP server
/// lists) are kept as `Unknown` and read by the interpreter.
#[derive(Clone, Debug, PartialEq, Eq)]
pub enum Dhcp6Option {
    ClientId(Vec<u8>),
    ServerId(Vec<u8>),
    Oro(Vec<u16>),
    ElapsedTime(u16),
    StatusCode(u16, Vec<u8>),
    VendorClass(u32, Vec<Vec<u8>>),
    DomainNameServers(Vec<[u8; 16]>),
    DomainSearchList(Vec<DomainName>),
    IaPd(IaPd),
    Unknown(u16, Vec<u8>),
}

/// Ghost view of `Dhcp6Option`.
#[verifier::ext_equal]
pub enum Opt6 {
    ClientId(Seq<u8>),
    ServerId(Seq<u8>),
    Oro(Seq<u16>),
    ElapsedTime(u16),
    StatusCode(u16, Seq<u8>),
    VendorClass(u32, Seq<Seq<u8>>),
    DomainNameServers(Seq<Seq<u8>>),
    DomainSearchList(Seq<Seq<Seq<u8>>>),
    IaPd(IaPdV),
    Unknown(u16, Seq<u8>),
}

impl View for Dhcp6Option {
    type V = Opt6;

    open spec fn view(&self) -> Opt6 {
        match self {
            Dhcp6Option::ClientId(b) => Opt6::ClientId(b@),
            Dhcp6Option::ServerId(b) => Opt6::ServerId(b@),
            Dhcp6Option::Oro(cs) => Opt6::Oro(cs@),
            Dhcp6Option::ElapsedTime(x) => Opt6::ElapsedTime(*x),
            Dhcp6Option::StatusCode(st, m) => Opt6::StatusCode(*st, m@),
            Dhcp6Option::VendorClass(e, segs) => Opt6::VendorClass(*e, segs.deep_view()),
            Dhcp6Option::DomainNameServers(a) => Opt6::DomainNameServers(a.deep_view()),
            Dhcp6Option::DomainSearchList(ns) => Opt6::DomainSearchList(ns.deep_view()),
            Dhcp6Option::IaPd(pd) => Opt6::IaPd(pd.view()),
            Dhcp6Option::Unknown(c, d) => Opt6::Unknown(*c, d@),
        }
    }
}

impl DeepView for Dhcp6Option {
    type V = Opt6;

    open spec fn deep_view(&self) -> Opt6 {
        self.view()
    }
}

/// A DHCPv6 message: type, three-byte transaction id, option set.
#[derive(Clone, Debug, PartialEq, Eq)]
pub struct Dhcp6Message {
    pub msg_type: MessageType,
    pub xid: u32,
    pub options: Vec<Dhcp6Option>,
}

/// Ghost view of `Dhcp6Message`.
#[verifier::ext_equal]
pub struct Msg6 {
    pub msg_type: MessageType,
    pub xid: u32,
    pub options: Seq<Opt6>,
}

impl View for Dhcp6Message {
    type V = Msg6;

    open spec fn view(&self) -> Msg6 {
        Msg6 { msg_type: self.msg_type, xid: self.xid, options: self.options.deep_view() }
    }
}

/// A delegated IPv6 prefix with its lifetimes and renewal timers. Created
/// only when a reply's IA-PD container holds an IA-Prefix; absent otherwise.
#[derive(Clone, Copy, Debug, PartialEq, Eq)]
pub struct PdPrefix {
    pub prefix: [u8; 16],
    pub prefix_len: u8,
    pub preferred_lifetime: u32,
    pub valid_lifetime: u32,
    pub t1: u32,
    pub t2: u32,
}

/// Ghost view of `PdPrefix`.
#[verifier::ext_equal]
pub struct PdPrefixV {
    pub prefix: Seq<u8>,
    pub prefix_len: u8,
    pub preferred_lifetime: u32,
    pub valid_lifetime: u32,
    pub t1: u32,
    pub t2: u32,
}

impl View for PdPrefix {
    type V = PdPrefixV;

    open spec fn view(&self) -> PdPrefixV {
        PdPrefixV {
            prefix: self.prefix@,
            prefix_len: self.prefix_len,
            preferred_lifetime: self.preferred_lifetime,
            valid_lifetime: self.valid_lifetime,
            t1: self.t1,
            t2: self.t2,
        }
    }
}

impl DeepView for PdPrefix {
    type V = PdPrefixV;

    open spec fn deep_view(&self) -> PdPrefixV {
        self.view()
    }
}

/// Errors of one receive attempt.
#[derive(Clone, Copy, Debug, PartialEq, Eq, Structural)]
pub enum Dhcp6Error {
    /// The datagram is shorter than a message header.
    Truncated,
    /// The message type differs from the one the caller expected.
    WrongMessageType,
    /// The echoed client identifier is not this client's DUID.
    ClientIdMismatch,
    /// A status option carried the given non-success status.
    ServerStatus(u16),
    /// The reply carried no client identifier.
    MissingClientId,
    /// The reply carried no server identifier.
    MissingServerId,
}

// ---------------------------------------------------------------------------
// Wire encoding, at the specification level.
// ---------------------------------------------------------------------------

/// Wire code of a typed option.
pub open spec fn opt6_code(o: Opt6) -> u16 {
    match o {
        Opt6::ClientId(_) => 1,
        Opt6::ServerId(_) => 2,
        Opt6::Oro(_) => 6,
        Opt6::ElapsedTime(_) => 8,
        Opt6::StatusCode(_, _) => 13,
        Opt6::VendorClass(_, _) => 16,
        Opt6::DomainNameServers(_) => 23,
        Opt6::DomainSearchList(_) => 24,
        Opt6::IaPd(_) => 25,
        Opt6::Unknown(c, _) => c,
    }
}

/// Whether a wire code belongs to the typed catalog.
pub open spec fn is_catalog6(c: u16) -> bool {
    c == 1 || c == 2 || c == 6 || c == 8 || c == 13 || c == 16 || c == 23 || c == 24 || c == 25
}

/// Concatenated encoding of an option-request list.
pub open spec fn oro_bytes(cs: Seq<u16>) -> Seq<u8>
    decreases cs.len(),
{
    if cs.len() == 0 {
        Seq::empty()
    } else {
        u16_bytes(cs[0]) + oro_bytes(cs.skip(1))
    }
}

/// Concatenated encoding of a 16-byte address list.
pub open spec fn addrs16_bytes(a: Seq<Seq<u8>>) -> Seq<u8>
    decreases a.len(),
{
    if a.len() == 0 {
        Seq::empty()
    } else {
        a[0] + addrs16_bytes(a.skip(1))
    }
}

/// Concatenated encoding of length-prefixed vendor-class segments.
pub open spec fn segs_bytes(segs: Seq<Seq<u8>>) -> Seq<u8>
    decreases segs.len(),
{
    if segs.len() == 0 {
        Seq::empty()
    } else {
        u16_bytes(segs[0].len() as u16) + segs[0] + segs_bytes(segs.skip(1))
    }
}

/// Encoding of one domain name: its labels, closed by a zero-length label.
pub open spec fn name_bytes(ls: Seq<Seq<u8>>) -> Seq<u8>
    decreases ls.len(),
{
    if ls.len() == 0 {
        seq![0u8]
    } else {
        seq![ls[0].len() as u8] + ls[0] + name_bytes(ls.skip(1))
    }
}

/// Concatenated encoding of a name list.
pub open spec fn names_bytes(ns: Seq<Seq<Seq<u8>>>) -> Seq<u8>
    decreases ns.len(),
{
    if ns.len() == 0 {
        Seq::empty()
    } else {
        name_bytes(ns[0]) + names_bytes(ns.skip(1))
    }
}

/// Payload of an option nested in an IA-Prefix.
pub open spec fn prefopt_payload(o: PrefixOptV) -> Seq<u8> {
    match o {
        PrefixOptV::Status(st, m) => u16_bytes(st) + m,
        PrefixOptV::Other(_, d) => d,
    }
}

/// Wire code of an option nested in an IA-Prefix.
pub open spec fn prefopt_code(o: PrefixOptV) -> u16 {
    match o {
        PrefixOptV::Status(_, _) => 13,
        PrefixOptV::Other(c, _) => c,
    }
}

/// Frame one nested option: code, length, payload, all big-endian.
pub open spec fn frame6(code: u16, payload: Seq<u8>) -> Seq<u8> {
    u16_bytes(code) + u16_bytes(payload.len() as u16) + payload
}

/// Encoding of the option region inside an IA-Prefix.
pub open spec fn enc_prefopts(s: Seq<PrefixOptV>) -> Seq<u8>
    decreases s.len(),
{
    if s.len() == 0 {
        Seq::empty()
    } else {
        frame6(prefopt_code(s[0]), prefopt_payload(s[0])) + enc_prefopts(s.skip(1))
    }
}

/// Encoding of one IA-Prefix: lifetimes, prefix length, the address, then
/// its nested options.
pub open spec fn iaprefix_bytes(p: IaPrefixV) -> Seq<u8> {
    u32_bytes(p.preferred_lifetime) + u32_bytes(p.valid_lifetime) + seq![p.prefix_len]
        + p.prefix_ip + enc_prefopts(p.opts)
}

/// Payload of an option nested in an IA-PD.
pub open spec fn pdopt_payload(o: PdOptV) -> Seq<u8> {
    match o {
        PdOptV::Prefix(p) => iaprefix_bytes(p),
        PdOptV::Status(st, m) => u16_bytes(st) + m,
        PdOptV::Other(_, d) => d,
    }
}

/// Wire code of an option nested in an IA-PD.
pub open spec fn pdopt_code(o: PdOptV) -> u16 {
    match o {
        PdOptV::Prefix(_) => 26,
        PdOptV::Status(_, _) => 13,
        PdOptV::Other(c, _) => c,
    }
}

/// Encoding of the option region inside an IA-PD.
pub open spec fn enc_pdopts(s: Seq<PdOptV>) -> Seq<u8>
    decreases s.len(),
{
    if s.len() == 0 {
        Seq::empty()
    } else {
        frame6(pdopt_code(s[0]), pdopt_payload(s[0])) + enc_pdopts(s.skip(1))
    }
}

/// Encoding of one IA-PD: identifiers and timers, then its nested options.
pub open spec fn iapd_bytes(pd: IaPdV) -> Seq<u8> {
    u32_bytes(pd.id) + u32_bytes(pd.t1) + u32_bytes(pd.t2) + enc_pdopts(pd.opts)
}

/// Payload bytes of one top-level option.
pub open spec fn opt6_payload(o: Opt6) -> Seq<u8> {
    match o {
        Opt6::ClientId(b) => b,
        Opt6::ServerId(b) => b,
        Opt6::Oro(cs) => oro_bytes(cs),
        Opt6::ElapsedTime(x) => u16_bytes(x),
        Opt6::StatusCode(st, m) => u16_bytes(st) + m,
        Opt6::VendorClass(e, segs) => u32_bytes(e) + segs_bytes(segs),
        Opt6::DomainNameServers(a) => addrs16_bytes(a),
        Opt6::DomainSearchList(ns) => names_bytes(ns),
        Opt6::IaPd(pd) => iapd_bytes(pd),
        Opt6::Unknown(_, d) => d,
    }
}

/// Encoding of one top-level option.
pub open spec fn enc_opt6(o: Opt6) -> Seq<u8> {
    frame6(opt6_code(o), opt6_payload(o))
}

/// Encoding of the option region, in order.
pub open spec fn enc_opts6(s: Seq<Opt6>) -> Seq<u8>
    decreases s.len(),
{
    if s.len() == 0 {
        Seq::empty()
    } else {
        enc_opt6(s[0]) + enc_opts6(s.skip(1))
    }
}

/// The three big-endian bytes of a transaction id.
pub open spec fn xid_bytes(x: u32) -> Seq<u8> {
    seq![((x >> 16u32) & 0xffu32) as u8, ((x >> 8u32) & 0xffu32) as u8, (x & 0xffu32) as u8]
}

/// Complete wire encoding of a message.
pub open spec fn spec_encode6(m: Msg6) -> Seq<u8> {
    seq![spec_msg_type6_code(m.msg_type)] + xid_bytes(m.xid) + enc_opts6(m.options)
}

// ---------------------------------------------------------------------------
// Well-formedness: what the encoder requires.
// ---------------------------------------------------------------------------

/// A nested prefix option's payload fits one frame.
pub open spec fn wf_prefopt(o: PrefixOptV) -> bool {
    prefopt_payload(o).len() <= 65535
}

/// An IA-Prefix holds a 16-byte address and fits one frame.
pub open spec fn wf_iaprefix(p: IaPrefixV) -> bool {
    p.prefix_ip.len() == 16 && iaprefix_bytes(p).len() <= 65535 && (forall|i: int|
        0 <= i < p.opts.len() ==> wf_prefopt(#[trigger] p.opts[i]))
}

/// A nested IA-PD option's payload fits one frame, recursively.
pub open spec fn wf_pdopt(o: PdOptV) -> bool {
    match o {
        PdOptV::Prefix(p) => wf_iaprefix(p),
        _ => pdopt_payload(o).len() <= 65535,
    }
}

/// An IA-PD fits one frame, recursively.
pub open spec fn wf_iapd(pd: IaPdV) -> bool {
    iapd_bytes(pd).len() <= 65535 && (forall|i: int|
        0 <= i < pd.opts.len() ==> wf_pdopt(#[trigger] pd.opts[i]))
}

/// A top-level option is well formed when its payload fits the two-byte
/// length field and each structured element fits its own field.
pub open spec fn wf_opt6(o: Opt6) -> bool {
    opt6_payload(o).len() <= 65535 && (match o {
        Opt6::VendorClass(_, segs) => forall|i: int|
            0 <= i < segs.len() ==> (#[trigger] segs[i]).len() <= 65535,
        Opt6::DomainNameServers(a) => forall|i: int|
            0 <= i < a.len() ==> (#[trigger] a[i]).len() == 16,
        Opt6::DomainSearchList(ns) => forall|i: int, j: int|
            0 <= i < ns.len() && 0 <= j < ns[i].len() ==> 0 < (#[trigger] ns[i][j]).len() <= 63,
        Opt6::IaPd(pd) => wf_iapd(pd),
        _ => true,
    })
}

/// A message is well formed when its transaction id fits three bytes and
/// every option is well formed.
pub open spec fn wf_msg6(m: Msg6) -> bool {
    m.xid < 0x1000000 && forall|i: int| 0 <= i < m.options.len() ==> wf_opt6(#[trigger] m.options[i])
}

// ---------------------------------------------------------------------------
// Wire decoding, at the specification level.
// ---------------------------------------------------------------------------

/// The 16-byte groups of an address-list payload.
pub open spec fn groups16(d: Seq<u8>) -> Seq<Seq<u8>> {
    Seq::new((d.len() / 16) as nat, |i: int| d.subrange(16 * i, 16 * i + 16))
}

/// The option codes of an option-request payload.
pub open spec fn parse_oro(d: Seq<u8>) -> Seq<u16> {
    Seq::new((d.len() / 2) as nat, |i: int| be16_at(d, 2 * i))
}

/// Parse length-prefixed vendor-class segments; `None` when one overruns.
pub open spec fn dec_segs(d: Seq<u8>, i: int, acc: Seq<Seq<u8>>) -> Option<Seq<Seq<u8>>>
    decreases d.len() - i,
{
    if i == d.len() {
        Some(acc)
    } else if i < 0 || i + 2 > d.len() {
        None
    } else {
        let l = be16_at(d, i) as int;
        if i + 2 + l > d.len() {
            None
        } else {
            dec_segs(d, i + 2 + l, acc.push(d.subrange(i + 2, i + 2 + l)))
        }
    }
}

/// Parse one name's labels from `i` on; gives the labels and the position
/// after the closing zero byte. `None` when a label overruns the buffer.
pub open spec fn name_labels(d: Seq<u8>, i: int) -> Option<(Seq<Seq<u8>>, int)>
    decreases d.len() - i,
{
    if i < 0 || i >= d.len() {
        None
    } else {
        let ll = d[i] as int;
        if ll == 0 {
            Some((Seq::empty(), i + 1))
        } else if i + 1 + ll > d.len() {
            None
        } else {
            match name_labels(d, i + 1 + ll) {
                Some((ls, nx)) => Some((seq![d.subrange(i + 1, i + 1 + ll)] + ls, nx)),
                None => None,
            }
        }
    }
}

/// Parse a sequence of names filling the whole payload.
pub open spec fn dec_names(d: Seq<u8>, i: int, acc: Seq<Seq<Seq<u8>>>) -> Option<
    Seq<Seq<Seq<u8>>>,
>
    decreases d.len() - i,
{
    if i == d.len() {
        Some(acc)
    } else if i < 0 || i > d.len() {
        None
    } else {
        match name_labels(d, i) {
            Some((ls, nx)) => if i < nx <= d.len() {
                dec_names(d, nx, acc.push(ls))
            } else {
                None
            },
            None => None,
        }
    }
}

/// Parse one option nested in an IA-Prefix. Always recognized: a status
/// needs two bytes, anything else is kept raw.
pub open spec fn parse_prefopt(code: u16, d: Seq<u8>) -> PrefixOptV {
    if code == 13 && d.len() >= 2 {
        PrefixOptV::Status(be16_at(d, 0), d.skip(2))
    } else {
        PrefixOptV::Other(code, d)
    }
}

/// Walk the option region inside an IA-Prefix; `None` when a frame overruns.
pub open spec fn dec_prefopts(d: Seq<u8>, i: int, acc: Seq<PrefixOptV>) -> Option<Seq<PrefixOptV>>
    decreases d.len() - i,
{
    if i == d.len() {
        Some(acc)
    } else if i < 0 || i + 4 > d.len() {
        None
    } else {
        let l = be16_at(d, i + 2) as int;
        if i + 4 + l > d.len() {
            None
        } else {
            dec_prefopts(d, i + 4 + l, acc.push(parse_prefopt(be16_at(d, i), d.subrange(i + 4, i
                + 4 + l))))
        }
    }
}

/// Parse one IA-Prefix payload.
pub open spec fn parse_iaprefix(d: Seq<u8>) -> Option<IaPrefixV> {
    if d.len() < 25 {
        None
    } else {
        match dec_prefopts(d, 25, Seq::empty()) {
            Some(opts) => Some(
                IaPrefixV {
                    preferred_lifetime: be32_at(d, 0),
                    valid_lifetime: be32_at(d, 4),
                    prefix_len: d[8],
                    prefix_ip: d.subrange(9, 25),
                    opts,
                },
            ),
            None => None,
        }
    }
}

/// Parse one option nested in an IA-PD.
pub open spec fn parse_pdopt(code: u16, d: Seq<u8>) -> Option<PdOptV> {
    if code == 26 {
        match parse_iaprefix(d) {
            Some(p) => Some(PdOptV::Prefix(p)),
            None => None,
        }
    } else if code == 13 && d.len() >= 2 {
        Some(PdOptV::Status(be16_at(d, 0), d.skip(2)))
    } else {
        Some(PdOptV::Other(code, d))
    }
}

/// Walk the option region inside an IA-PD; `None` when a frame overruns or
/// a nested prefix is malformed.
pub open spec fn dec_pdopts(d: Seq<u8>, i: int, acc: Seq<PdOptV>) -> Option<Seq<PdOptV>>
    decreases d.len() - i,
{
    if i == d.len() {
        Some(acc)
    } else if i < 0 || i + 4 > d.len() {
        None
    } else {
        let l = be16_at(d, i + 2) as int;
        if i + 4 + l > d.len() {
            None
        } else {
            match parse_pdopt(be16_at(d, i), d.subrange(i + 4, i + 4 + l)) {
                Some(o) => dec_pdopts(d, i + 4 + l, acc.push(o)),
                None => None,
            }
        }
    }
}

/// Parse one IA-PD payload.
pub open spec fn parse_iapd(d: Seq<u8>) -> Option<IaPdV> {
    if d.len() < 12 {
        None
    } else {
        match dec_pdopts(d, 12, Seq::empty()) {
            Some(opts) => Some(
                IaPdV { id: be32_at(d, 0), t1: be32_at(d, 4), t2: be32_at(d, 8), opts },
            ),
            None => None,
        }
    }
}

/// Parse one top-level option payload. `None` when a typed payload is
/// structurally invalid; that option is skipped, not an error.
pub open spec fn parse_opt6(code: u16, d: Seq<u8>) -> Option<Opt6> {
    if code == 1 {
        Some(Opt6::ClientId(d))
    } else if code == 2 {
        Some(Opt6::ServerId(d))
    } else if code == 6 {
        if d.len() % 2 == 0 {
            Some(Opt6::Oro(parse_oro(d)))
        } else {
            None
        }
    } else if code == 8 {
        if d.len() == 2 {
            Some(Opt6::ElapsedTime(be16_at(d, 0)))
        } else {
            None
        }
    } else if code == 13 {
        if d.len() >= 2 {
            Some(Opt6::StatusCode(be16_at(d, 0), d.skip(2)))
        } else {
            None
        }
    } else if code == 16 {
        if d.len() >= 4 {
            match dec_segs(d, 4, Seq::empty()) {
                Some(segs) => Some(Opt6::VendorClass(be32_at(d, 0), segs)),
                None => None,
            }
        } else {
            None
        }
    } else if code == 23 {
        if d.len() % 16 == 0 {
            Some(Opt6::DomainNameServers(groups16(d)))
        } else {
            None
        }
    } else if code == 24 {
        match dec_names(d, 0, Seq::empty()) {
            Some(ns) => Some(Opt6::DomainSearchList(ns)),
            None => None,
        }
    } else if code == 25 {
        match parse_iapd(d) {
            Some(pd) => Some(Opt6::IaPd(pd)),
            None => None,
        }
    } else {
        Some(Opt6::Unknown(code, d))
    }
}

/// Walk the top-level option region. Trailing bytes beyond the last
/// complete option frame -- fewer than a frame header, or a frame whose
/// declared length overruns the buffer -- are ignored: the options parsed
/// so far stand.
pub open spec fn dec_opts6(b: Seq<u8>, i: int, acc: Seq<Opt6>) -> Seq<Opt6>
    decreases b.len() - i,
{
    if i < 0 || i + 4 > b.len() {
        acc
    } else {
        let l = be16_at(b, i + 2) as int;
        if i + 4 + l > b.len() {
            acc
        } else {
            let acc2 = match parse_opt6(be16_at(b, i), b.subrange(i + 4, i + 4 + l)) {
                Some(o) => acc.push(o),
                None => acc,
            };
            dec_opts6(b, i + 4 + l, acc2)
        }
    }
}

/// The transaction id carried by three bytes.
pub open spec fn xid_of(b1: u8, b2: u8, b3: u8) -> u32 {
    ((b1 as u32) * 0x10000 + (b2 as u32) * 0x100 + (b3 as u32)) as u32
}

/// Decode a complete datagram: type byte, transaction id, option region.
/// Exactly one message is read; bytes beyond its last complete option are
/// ignored.
pub open spec fn spec_decode6(b: Seq<u8>) -> Result<Msg6, Dhcp6Error> {
    if b.len() < 4 {
        Err(Dhcp6Error::Truncated)
    } else {
        Ok(
            Msg6 {
                msg_type: spec_msg_type6_of(b[0]),
                xid: xid_of(b[1], b[2], b[3]),
                options: dec_opts6(b, 4, Seq::empty()),
            },
        )
    }
}


// ---------------------------------------------------------------------------
// Link-local address helpers.
// ---------------------------------------------------------------------------

/// Whether sixteen address bytes form a unicast link-local address
/// (the `fe80::/10` block).
pub open spec fn spec_is_unicast_link_local(a: Seq<u8>) -> bool {
    a[0] == 0xfe && (a[1] & 0xc0u8) == 0x80
}

/// Whether an address is unicast link-local.
pub fn is_unicast_link_local(a: &[u8; 16]) -> (r: bool)
    ensures
        r == spec_is_unicast_link_local(a@),
{
    a[0] == 0xfe && (a[1] & 0xc0u8) == 0x80
}

/// The hardware address a link-local address embeds, by the modified
/// EUI-64 rule; all zeros when the address is not unicast link-local.
pub open spec fn spec_ll_mac(a: Seq<u8>) -> Seq<u8> {
    if spec_is_unicast_link_local(a) {
        seq![(a[8] ^ 2u8) as u8, a[9], a[10], a[13], a[14], a[15]]
    } else {
        seq![0u8, 0u8, 0u8, 0u8, 0u8, 0u8]
    }
}

/// Recover the hardware address embedded in a unicast link-local address;
/// any other address yields all zeros.
pub fn ipv6_ll_to_mac(ll_addr: &[u8; 16]) -> (r: [u8; 6])
    ensures
        r@ == spec_ll_mac(ll_addr@),
{
    if !is_unicast_link_local(ll_addr) {
        let z: [u8; 6] = [0, 0, 0, 0, 0, 0];
        assert(z@ =~= spec_ll_mac(ll_addr@));
        return z;
    }
    let r: [u8; 6] = [
        ll_addr[8] ^ 2u8,
        ll_addr[9],
        ll_addr[10],
        ll_addr[13],
        ll_addr[14],
        ll_addr[15],
    ];
    assert(r@ =~= spec_ll_mac(ll_addr@));
    r
}

} // verus!
