//! DHCPv4 response interpretation: folding a decoded message's option set
//! into a flat lease response, including the provider's vendor sub-options
//! (option 125) and the SIP address list (option 120), both parsed from raw
//! bytes with explicit bounds checks.

use vstd::prelude::*;

use crate::ipv4::{
    spec_decode4, Dhcp4Error, Dhcp4Message, Dhcp4Option, Dhcp4Route, MessageType, Msg4, Opt4,
    OPCODE_REPLY, VENDOR_CODE_NTT,
};
use crate::ipv4_codec::decode;
use crate::wire::{be32_at, copy_range, dot_labels, join_labels, read_u32};

verus! {

/// Everything the interpreter extracted from one received message.
#[derive(Clone, Debug)]
pub struct Dhcp4Response {
    pub client_addr: Option<u32>,
    pub server_addr: Option<u32>,
    pub router_addrs: Vec<u32>,
    pub subnet_mask: Option<u32>,
    pub addr_time: u32,
    pub renewal_time: u32,
    pub rebind_time: u32,
    pub sip_server_addrs: Vec<u32>,
    pub sip_domain_name: Option<Vec<u8>>,
    pub sip_main_number: Option<Vec<u8>>,
    pub sip_add_numbers: Vec<Vec<u8>>,
    pub static_routes: Vec<Dhcp4Route>,
}

/// Ghost view of `Dhcp4Response`.
#[verifier::ext_equal]
pub struct Lease4 {
    pub client_addr: Option<u32>,
    pub server_addr: Option<u32>,
    pub router_addrs: Seq<u32>,
    pub subnet_mask: Option<u32>,
    pub addr_time: u32,
    pub renewal_time: u32,
    pub rebind_time: u32,
    pub sip_server_addrs: Seq<u32>,
    pub sip_domain_name: Option<Seq<u8>>,
    pub sip_main_number: Option<Seq<u8>>,
    pub sip_add_numbers: Seq<Seq<u8>>,
    pub static_routes: Seq<Dhcp4Route>,
}

impl View for Dhcp4Response {
    type V = Lease4;

    open spec fn view(&self) -> Lease4 {
        Lease4 {
            client_addr: self.client_addr,
            server_addr: self.server_addr,
            router_addrs: self.router_addrs@,
            subnet_mask: self.subnet_mask,
            addr_time: self.addr_time,
            renewal_time: self.renewal_time,
            rebind_time: self.rebind_time,
            sip_server_addrs: self.sip_server_addrs@,
            sip_domain_name: self.sip_domain_name.deep_view(),
            sip_main_number: self.sip_main_number.deep_view(),
            sip_add_numbers: self.sip_add_numbers.deep_view(),
            static_routes: self.static_routes@,
        }
    }
}

/// The empty lease every interpretation starts from.
pub open spec fn lease4_init() -> Lease4 {
    Lease4 {
        client_addr: None,
        server_addr: None,
        router_addrs: Seq::empty(),
        subnet_mask: None,
        addr_time: 0,
        renewal_time: 0,
        rebind_time: 0,
        sip_server_addrs: Seq::empty(),
        sip_domain_name: None,
        sip_main_number: None,
        sip_add_numbers: Seq::empty(),
        static_routes: Seq::empty(),
    }
}

// ---------------------------------------------------------------------------
// Vendor sub-option parsing (option 125), at the specification level.
// ---------------------------------------------------------------------------

/// The three response fields the vendor block can populate.
#[verifier::ext_equal]
pub struct VendorFields {
    pub main: Option<Seq<u8>>,
    pub adds: Seq<Seq<u8>>,
    pub domain: Option<Seq<u8>>,
}

/// The bytes of a NUL-terminated or full-length byte string: everything up
/// to the first zero byte, or all of it when none occurs.
pub open spec fn cstr_bytes(d: Seq<u8>) -> Seq<u8>
    decreases d.len(),
{
    if d.len() == 0 {
        Seq::empty()
    } else if d[0] == 0 {
        Seq::empty()
    } else {
        seq![d[0]] + cstr_bytes(d.skip(1))
    }
}

/// Length-prefixed labels from `i` on, stopping at a zero-length label, the
/// buffer end, or a label that would overrun the buffer.
pub open spec fn labels_at(d: Seq<u8>, i: int, acc: Seq<Seq<u8>>) -> Seq<Seq<u8>>
    decreases d.len() - i,
{
    if i < 0 || i >= d.len() {
        acc
    } else {
        let ll = d[i] as int;
        if ll == 0 {
            acc
        } else if i + 1 >= d.len() {
            acc
        } else if i + 1 + ll > d.len() {
            acc
        } else {
            labels_at(d, i + 1 + ll, acc.push(d.subrange(i + 1, i + 1 + ll)))
        }
    }
}

/// What one recognized vendor sub-option does to the vendor fields: 202 sets
/// the primary number, 203 appends an additional number, 204 sets the domain
/// name; empty strings leave the field alone, other sub-codes do nothing.
pub open spec fn vendor_step(sc: u8, sub: Seq<u8>, v: VendorFields) -> VendorFields {
    if sc == 202 {
        let s = cstr_bytes(sub);
        if s.len() > 0 {
            VendorFields { main: Some(s), ..v }
        } else {
            v
        }
    } else if sc == 203 {
        let s = cstr_bytes(sub);
        if s.len() > 0 {
            VendorFields { adds: v.adds.push(s), ..v }
        } else {
            v
        }
    } else if sc == 204 {
        VendorFields { domain: Some(join_labels(labels_at(sub, 0, Seq::empty()))), ..v }
    } else {
        v
    }
}

/// Walk `[code:1][len:1][data:len]` sub-options from `pos` on, stopping when
/// fewer than two bytes remain or a sub-option would overrun the buffer.
pub open spec fn vendor_walk(d: Seq<u8>, pos: int, v: VendorFields) -> VendorFields
    decreases d.len() - pos,
{
    if pos < 0 || pos + 1 >= d.len() {
        v
    } else {
        let sl = d[pos + 1] as int;
        let st = pos + 2;
        if st >= d.len() {
            v
        } else if st + sl > d.len() {
            v
        } else {
            vendor_walk(d, pos + 2 + sl, vendor_step(d[pos], d.subrange(st, st + sl), v))
        }
    }
}

/// Interpret one option-125 payload: only a block whose leading enterprise
/// number is the provider's is walked; any other block changes nothing.
pub open spec fn vendor125(d: Seq<u8>, v: VendorFields) -> VendorFields {
    if d.len() < 5 {
        v
    } else if be32_at(d, 0) != VENDOR_CODE_NTT {
        v
    } else {
        vendor_walk(d, 5, v)
    }
}

/// The vendor fields of a lease.
pub open spec fn vendor_of(l: Lease4) -> VendorFields {
    VendorFields { main: l.sip_main_number, adds: l.sip_add_numbers, domain: l.sip_domain_name }
}

/// A lease with its vendor fields replaced.
pub open spec fn with_vendor(l: Lease4, v: VendorFields) -> Lease4 {
    Lease4 { sip_main_number: v.main, sip_add_numbers: v.adds, sip_domain_name: v.domain, ..l }
}

// ---------------------------------------------------------------------------
// SIP server list (option 120), at the specification level.
// ---------------------------------------------------------------------------

/// How many complete addresses option 120 yields: no more than the declared
/// count, and no more than the complete four-byte groups present.
pub open spec fn sip120_count(d: Seq<u8>) -> int {
    if d.len() == 0 {
        0
    } else if d[0] as int <= (d.len() - 1) / 4 {
        d[0] as int
    } else {
        (d.len() - 1) / 4
    }
}

/// The addresses option 120 yields.
pub open spec fn sip120_addrs(d: Seq<u8>) -> Seq<u32> {
    Seq::new(sip120_count(d) as nat, |i: int| be32_at(d, 1 + 4 * i))
}

// ---------------------------------------------------------------------------
// The interpretation fold.
// ---------------------------------------------------------------------------

/// What one option does to the lease. Lists accumulate, scalar fields take
/// the last written value, and a message type other than the expected one is
/// a protocol mismatch.
pub open spec fn step4(o: Opt4, exp: MessageType, acc: Lease4) -> Result<Lease4, Dhcp4Error> {
    match o {
        Opt4::SubnetMask(x) => Ok(Lease4 { subnet_mask: Some(x), ..acc }),
        Opt4::Router(a) => Ok(Lease4 { router_addrs: acc.router_addrs + a, ..acc }),
        Opt4::AddressLeaseTime(t) => Ok(Lease4 { addr_time: t, ..acc }),
        Opt4::MessageType(t) => if t == exp {
            Ok(acc)
        } else {
            Err(Dhcp4Error::WrongMessageType)
        },
        Opt4::ServerIdentifier(x) => Ok(Lease4 { server_addr: Some(x), ..acc }),
        Opt4::Renewal(x) => Ok(Lease4 { renewal_time: x, ..acc }),
        Opt4::Rebinding(x) => Ok(Lease4 { rebind_time: x, ..acc }),
        Opt4::ClasslessStaticRoute(rs) => Ok(Lease4 { static_routes: acc.static_routes + rs, ..acc }),
        Opt4::Unknown(c, d) => if c == 120 {
            Ok(Lease4 { sip_server_addrs: acc.sip_server_addrs + sip120_addrs(d), ..acc })
        } else if c == 125 {
            Ok(with_vendor(acc, vendor125(d, vendor_of(acc))))
        } else {
            Ok(acc)
        },
        _ => Ok(acc),
    }
}

/// Fold the option list over the lease, stopping at the first mismatch.
pub open spec fn fold4(opts: Seq<Opt4>, exp: MessageType, acc: Lease4) -> Result<
    Lease4,
    Dhcp4Error,
>
    decreases opts.len(),
{
    if opts.len() == 0 {
        Ok(acc)
    } else {
        match step4(opts[0], exp, acc) {
            Ok(a2) => fold4(opts.skip(1), exp, a2),
            Err(e) => Err(e),
        }
    }
}

/// Interpret a decoded message: it must be a reply carrying the expected
/// message type; the client address comes from the header's `yiaddr` field
/// and is absent when that is the all-zero address.
pub open spec fn spec_interpret4(m: Msg4, exp: MessageType) -> Result<Lease4, Dhcp4Error> {
    if m.opcode != OPCODE_REPLY {
        Err(Dhcp4Error::NotReply)
    } else {
        match fold4(m.options, exp, lease4_init()) {
            Ok(acc) => Ok(
                Lease4 {
                    client_addr: if m.yiaddr == 0 {
                        None
                    } else {
                        Some(m.yiaddr)
                    },
                    ..acc
                },
            ),
            Err(e) => Err(e),
        }
    }
}

/// Interpretation of a raw datagram: decode, then interpret.
pub open spec fn spec_recv4(b: Seq<u8>, exp: MessageType) -> Result<Lease4, Dhcp4Error> {
    match spec_decode4(b) {
        Ok(m) => spec_interpret4(m, exp),
        Err(e) => Err(e),
    }
}

// ---------------------------------------------------------------------------
// Laws the parsers obey.
// ---------------------------------------------------------------------------

/// A truncated SIP address list yields exactly the complete addresses that
/// are present, not an error: when the declared count exceeds what the bytes
/// can hold, the result length is the number of complete four-byte groups.
pub proof fn lemma_sip120_truncated(d: Seq<u8>)
    requires
        d.len() > 0,
        d[0] as int > (d.len() - 1) / 4,
    ensures
        sip120_addrs(d).len() == (d.len() - 1) / 4,
{
}

/// A vendor block whose enterprise number is not the provider's populates no
/// vendor field and parses no sub-option.
pub proof fn lemma_vendor125_foreign(d: Seq<u8>, v: VendorFields)
    requires
        d.len() < 5 || be32_at(d, 0) != VENDOR_CODE_NTT,
    ensures
        vendor125(d, v) == v,
{
}

// ---------------------------------------------------------------------------
// Executable parsing helpers.
// ---------------------------------------------------------------------------

/// Extend a list of addresses.
fn extend_u32(dst: &mut Vec<u32>, src: &Vec<u32>)
    ensures
        final(dst)@ == old(dst)@ + src@,
{
    let mut k: usize = 0;
    while k < src.len()
        invariant
            k <= src@.len(),
            dst@ == old(dst)@ + src@.take(k as int),
        decreases src@.len() - k,
    {
        dst.push(src[k]);
        assert(dst@ =~= old(dst)@ + src@.take(k as int + 1));
        k = k + 1;
    }
    assert(src@.take(src@.len() as int) =~= src@);
}

/// Extend a list of routes.
fn extend_routes(dst: &mut Vec<Dhcp4Route>, src: &Vec<Dhcp4Route>)
    ensures
        final(dst)@ == old(dst)@ + src@,
{
    let mut k: usize = 0;
    while k < src.len()
        invariant
            k <= src@.len(),
            dst@ == old(dst)@ + src@.take(k as int),
        decreases src@.len() - k,
    {
        dst.push(src[k]);
        assert(dst@ =~= old(dst)@ + src@.take(k as int + 1));
        k = k + 1;
    }
    assert(src@.take(src@.len() as int) =~= src@);
}

/// The bytes up to the first NUL, or all of them when none occurs.
fn take_until_nul(d: &Vec<u8>) -> (r: Vec<u8>)
    ensures
        r@ == cstr_bytes(d@),
{
    let n = d.len();
    let mut j: usize = 0;
    while j < n && d[j] != 0
        invariant
            j <= n,
            n == d@.len(),
            forall|k: int| 0 <= k < j ==> d@[k] != 0,
        decreases n - j,
    {
        j = j + 1;
    }
    proof {
        lemma_cstr_bytes(d@, j as int);
    }
    copy_range(d, 0, j)
}

/// The bytes up to the first NUL are the leading run of non-zero bytes.
proof fn lemma_cstr_bytes(s: Seq<u8>, j: int)
    requires
        0 <= j <= s.len(),
        forall|k: int| 0 <= k < j ==> s[k] != 0,
        j == s.len() || s[j] == 0,
    ensures
        cstr_bytes(s) == s.take(j),
    decreases j,
{
    if j == 0 {
        assert(s.take(0) =~= Seq::<u8>::empty());
    } else {
        assert(s[0] != 0);
        lemma_cstr_bytes(s.skip(1), j - 1);
        assert(seq![s[0]] + s.skip(1).take(j - 1) =~= s.take(j));
    }
}

/// Parse a label sequence and join it with dots into one domain name.
fn parse_domain(d: &Vec<u8>) -> (r: Vec<u8>)
    ensures
        r@ == join_labels(labels_at(d@, 0, Seq::empty())),
{
    let n = d.len();
    let mut ls: Vec<Vec<u8>> = Vec::new();
    assert(ls.deep_view() =~= Seq::<Seq<u8>>::empty());
    let mut i: usize = 0;
    while i < n
        invariant
            i <= n,
            n == d@.len(),
            labels_at(d@, i as int, ls.deep_view()) == labels_at(d@, 0, Seq::empty()),
        decreases n - i,
    {
        let ll = d[i] as usize;
        if ll == 0 {
            proof {
                assert(labels_at(d@, n as int, ls.deep_view()) == ls.deep_view());
            }
            i = n;
        } else if i + 1 >= n {
            i = n;
        } else if ll > n - (i + 1) {
            i = n;
        } else {
            let lab = copy_range(d, i + 1, i + 1 + ll);
            let ghost pre = ls.deep_view();
            ls.push(lab);
            proof {
                assert(ls.deep_view() =~~= pre.push(lab@));
            }
            i = i + 1 + ll;
        }
    }
    let cnt = ls.len();
    if cnt == 0 {
        let r: Vec<u8> = Vec::new();
        assert(r@ =~= join_labels(ls.deep_view()));
        return r;
    }
    let mut r: Vec<u8> = Vec::new();
    let mut t: usize = 1;
    let first = &ls[0];
    let mut k: usize = 0;
    while k < first.len()
        invariant
            k <= first@.len(),
            r@ == first@.take(k as int),
        decreases first@.len() - k,
    {
        r.push(first[k]);
        assert(r@ =~= first@.take(k as int + 1));
        k = k + 1;
    }
    assert(first@.take(first@.len() as int) =~= first@);
    assert(ls.deep_view()[0] == ls@[0]@);
    while t < cnt
        invariant
            1 <= t <= cnt,
            cnt == ls@.len(),
            join_labels(ls.deep_view()) == r@ + dot_labels(ls.deep_view(), t as int),
        decreases cnt - t,
    {
        let ghost pre = r@;
        r.push(46u8);
        let lab = &ls[t];
        let mut k2: usize = 0;
        while k2 < lab.len()
            invariant
                k2 <= lab@.len(),
                r@ == pre + seq![46u8] + lab@.take(k2 as int),
            decreases lab@.len() - k2,
        {
            r.push(lab[k2]);
            assert(r@ =~= pre + seq![46u8] + lab@.take(k2 as int + 1));
            k2 = k2 + 1;
        }
        proof {
            assert(lab@.take(lab@.len() as int) =~= lab@);
            assert(ls.deep_view()[t as int] == ls@[t as int]@);
            assert(dot_labels(ls.deep_view(), t as int) == seq![46u8] + ls.deep_view()[t as int]
                + dot_labels(ls.deep_view(), t as int + 1));
            assert(pre + (seq![46u8] + ls.deep_view()[t as int] + dot_labels(
                ls.deep_view(),
                t as int + 1,
            )) =~= (pre + seq![46u8] + lab@) + dot_labels(ls.deep_view(), t as int + 1));
        }
        t = t + 1;
    }
    assert(dot_labels(ls.deep_view(), cnt as int) == Seq::<u8>::empty());
    assert(r@ + Seq::<u8>::empty() =~= r@);
    r
}

/// Append the complete addresses of one option-120 payload.
fn parse_sip120(d: &Vec<u8>, out: &mut Vec<u32>)
    ensures
        final(out)@ == old(out)@ + sip120_addrs(d@),
{
    let n = d.len();
    if n == 0 {
        assert(sip120_addrs(d@) =~= Seq::<u32>::empty());
        assert(out@ =~= old(out)@ + sip120_addrs(d@));
        return ;
    }
    let declared = d[0] as usize;
    let avail = (n - 1) / 4;
    let cnt = if declared <= avail {
        declared
    } else {
        avail
    };
    assert(cnt as int == sip120_count(d@));
    let mut i: usize = 0;
    while i < cnt
        invariant
            i <= cnt,
            n == d@.len(),
            cnt as int == sip120_count(d@),
            cnt <= (n - 1) / 4,
            out@ == old(out)@ + sip120_addrs(d@).take(i as int),
        decreases cnt - i,
    {
        out.push(read_u32(d, 1 + 4 * i));
        assert(out@ =~= old(out)@ + sip120_addrs(d@).take(i as int + 1));
        i = i + 1;
    }
    assert(sip120_addrs(d@).take(cnt as int) =~= sip120_addrs(d@));
}

/// Walk one option-125 payload, updating the three vendor fields.
fn parse_vendor125(
    d: &Vec<u8>,
    main: &mut Option<Vec<u8>>,
    adds: &mut Vec<Vec<u8>>,
    domain: &mut Option<Vec<u8>>,
)
    ensures
        vendor_acc(*final(main), final(adds)@, *final(domain)) == vendor125(
            d@,
            vendor_acc(*old(main), old(adds)@, *old(domain)),
        ),
{
    let n = d.len();
    if n < 5 {
        return ;
    }
    let ent = read_u32(d, 0);
    if ent != VENDOR_CODE_NTT {
        return ;
    }
    let mut pos: usize = 5;
    while pos < n - 1
        invariant
            5 <= pos <= n,
            n == d@.len(),
            vendor_walk(d@, pos as int, vendor_acc(*main, adds@, *domain)) == vendor_walk(
                d@,
                5,
                vendor_acc(*old(main), old(adds)@, *old(domain)),
            ),
        decreases n - pos,
    {
        let sc = d[pos];
        let sl = d[pos + 1] as usize;
        let st = pos + 2;
        if st >= n {
            proof {
                assert(vendor_walk(d@, n as int, vendor_acc(*main, adds@, *domain)) == vendor_acc(
                    *main,
                    adds@,
                    *domain,
                ));
            }
            pos = n;
        } else if sl > n - st {
            proof {
                assert(vendor_walk(d@, n as int, vendor_acc(*main, adds@, *domain)) == vendor_acc(
                    *main,
                    adds@,
                    *domain,
                ));
            }
            pos = n;
        } else {
            let sub = copy_range(d, st, st + sl);
            let ghost pre = vendor_acc(*main, adds@, *domain);
            if sc == 202 {
                let s = take_until_nul(&sub);
                if s.len() > 0 {
                    *main = Some(s);
                }
            } else if sc == 203 {
                let s = take_until_nul(&sub);
                if s.len() > 0 {
                    let ghost preadds = adds.deep_view();
                    adds.push(s);
                    assert(adds.deep_view() =~~= preadds.push(cstr_bytes(sub@)));
                }
            } else if sc == 204 {
                *domain = Some(parse_domain(&sub));
            }
            proof {
                assert(vendor_acc(*main, adds@, *domain) =~~= vendor_step(sc, sub@, pre));
            }
            pos = pos + 2 + sl;
        }
    }
}

/// The ghost vendor fields of three executable accumulators.
pub open spec fn vendor_acc(main: Option<Vec<u8>>, adds: Seq<Vec<u8>>, domain: Option<Vec<u8>>)
    -> VendorFields {
    VendorFields {
        main: main.deep_view(),
        adds: adds.map_values(|v: Vec<u8>| v@),
        domain: domain.deep_view(),
    }
}

// ---------------------------------------------------------------------------
// The interpreter.
// ---------------------------------------------------------------------------

/// Interpret a decoded message against the expected message type.
pub fn interpret(m: &Dhcp4Message, expected: MessageType) -> (r: Result<
    Dhcp4Response,
    Dhcp4Error,
>)
    ensures
        (match (r, spec_interpret4(m@, expected)) {
            (Ok(resp), Ok(l)) => resp@ == l,
            (Err(e1), Err(e2)) => e1 == e2,
            _ => false,
        }),
{
    if m.opcode != OPCODE_REPLY {
        return Err(Dhcp4Error::NotReply);
    }
    let mut resp = Dhcp4Response {
        client_addr: None,
        server_addr: None,
        router_addrs: Vec::new(),
        subnet_mask: None,
        addr_time: 0,
        renewal_time: 0,
        rebind_time: 0,
        sip_server_addrs: Vec::new(),
        sip_domain_name: None,
        sip_main_number: None,
        sip_add_numbers: Vec::new(),
        static_routes: Vec::new(),
    };
    assert(resp@ =~~= lease4_init());
    let cnt = m.options.len();
    proof {
        assert(m@.options.skip(0) =~= m@.options);
    }
    let mut j: usize = 0;
    while j < cnt
        invariant
            j <= cnt,
            cnt == m.options@.len(),
            m@.options.len() == m.options@.len(),
            m@.opcode == OPCODE_REPLY,
            resp@.client_addr is None,
            fold4(m@.options.skip(j as int), expected, resp@) == fold4(
                m@.options,
                expected,
                lease4_init(),
            ),
        decreases cnt - j,
    {
        let ghost pre = resp@;
        let ghost ov = m@.options[j as int];
        proof {
            assert(m@.options[j as int] == m.options[j as int]@);
            assert(m@.options.skip(j as int)[0] == ov);
            assert(m@.options.skip(j as int).skip(1) =~= m@.options.skip(j as int + 1));
        }
        match &m.options[j] {
            Dhcp4Option::SubnetMask(x) => {
                resp.subnet_mask = Some(*x);
                assert(resp@ =~~= (Lease4 { subnet_mask: Some(*x), ..pre }));
            },
            Dhcp4Option::Router(a) => {
                extend_u32(&mut resp.router_addrs, a);
                assert(resp@ =~~= (Lease4 { router_addrs: pre.router_addrs + a@, ..pre }));
            },
            Dhcp4Option::AddressLeaseTime(t) => {
                resp.addr_time = *t;
                assert(resp@ =~~= (Lease4 { addr_time: *t, ..pre }));
            },
            Dhcp4Option::MessageType(t) => {
                if *t != expected {
                    proof {
                        assert(step4(ov, expected, pre) == Err::<Lease4, Dhcp4Error>(
                            Dhcp4Error::WrongMessageType,
                        ));
                        assert(fold4(m@.options, expected, lease4_init()) == Err::<
                            Lease4,
                            Dhcp4Error,
                        >(Dhcp4Error::WrongMessageType));
                    }
                    return Err(Dhcp4Error::WrongMessageType);
                }
            },
            Dhcp4Option::ServerIdentifier(x) => {
                resp.server_addr = Some(*x);
                assert(resp@ =~~= (Lease4 { server_addr: Some(*x), ..pre }));
            },
            Dhcp4Option::Renewal(x) => {
                resp.renewal_time = *x;
                assert(resp@ =~~= (Lease4 { renewal_time: *x, ..pre }));
            },
            Dhcp4Option::Rebinding(x) => {
                resp.rebind_time = *x;
                assert(resp@ =~~= (Lease4 { rebind_time: *x, ..pre }));
            },
            Dhcp4Option::ClasslessStaticRoute(rs) => {
                extend_routes(&mut resp.static_routes, rs);
                assert(resp@ =~~= (Lease4 { static_routes: pre.static_routes + rs@, ..pre }));
            },
            Dhcp4Option::Unknown(c, d) => {
                if *c == 120 {
                    parse_sip120(d, &mut resp.sip_server_addrs);
                    assert(resp@ =~~= (Lease4 {
                        sip_server_addrs: pre.sip_server_addrs + sip120_addrs(d@),
                        ..pre
                    }));
                } else if *c == 125 {
                    let ghost vpre = vendor_acc(
                        resp.sip_main_number,
                        resp.sip_add_numbers@,
                        resp.sip_domain_name,
                    );
                    proof {
                        assert(vpre =~~= vendor_of(pre));
                    }
                    parse_vendor125(
                        d,
                        &mut resp.sip_main_number,
                        &mut resp.sip_add_numbers,
                        &mut resp.sip_domain_name,
                    );
                    proof {
                        assert(vendor_acc(
                            resp.sip_main_number,
                            resp.sip_add_numbers@,
                            resp.sip_domain_name,
                        ) == vendor125(d@, vendor_of(pre)));
                        assert(resp@ =~~= with_vendor(pre, vendor125(d@, vendor_of(pre))));
                    }
                }
            },
            _ => {},
        }
        proof {
            assert(step4(ov, expected, pre) == Ok::<Lease4, Dhcp4Error>(resp@));
            assert(fold4(m@.options.skip(j as int), expected, pre) == fold4(
                m@.options.skip(j as int + 1),
                expected,
                resp@,
            ));
        }
        j = j + 1;
    }
    proof {
        assert(m@.options.skip(cnt as int) =~= Seq::<Opt4>::empty());
        assert(fold4(m@.options, expected, lease4_init()) == Ok::<Lease4, Dhcp4Error>(resp@));
    }
    let ghost folded = resp@;
    if m.yiaddr != 0 {
        resp.client_addr = Some(m.yiaddr);
    }
    proof {
        assert(resp@ =~~= spec_interpret4(m@, expected)->Ok_0);
    }
    Ok(resp)
}

/// Interpret one raw datagram: decode it, then fold its options into a
/// lease response against the expected message type.
pub fn recv(b: &Vec<u8>, expected: MessageType) -> (r: Result<Dhcp4Response, Dhcp4Error>)
    ensures
        (match (r, spec_recv4(b@, expected)) {
            (Ok(resp), Ok(l)) => resp@ == l,
            (Err(e1), Err(e2)) => e1 == e2,
            _ => false,
        }),
{
    match decode(b) {
        Ok(m) => interpret(&m, expected),
        Err(e) => Err(e),
    }
}

} // verus!
