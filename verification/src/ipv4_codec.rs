//! Executable DHCPv4 wire codec, proved equal to the specification-level
//! encoding and decoding, and the round-trip law connecting the two.

use vstd::prelude::*;

use crate::ipv4::{
    addrs4_bytes, dec_opts4, dec_routes, enc_opt4, enc_opts4, header4_bytes, magic4,
    msg_type_code, msg_type_of, opt4_code, opt4_payload, parse_addrs4, parse_opt4, route_bytes,
    route_net_byte, route_octets, routes_bytes, spec_decode4, spec_encode4, spec_msg_type_code,
    wf_msg4, wf_opt4, wf_route, Dhcp4Error, Dhcp4Message, Dhcp4Option, Dhcp4Route, MessageType,
    Msg4, Opt4,
};
use crate::wire::{
    be32, be32_at, copy_range, lemma_be16_of_u16_bytes, lemma_be32_of_u32_bytes, push_bytes,
    push_u16, push_u32, push_zeros, read_u16, read_u32, u16_bytes, u32_bytes, zero_bytes,
};

verus! {

// ---------------------------------------------------------------------------
// Structural lemmas about the encoding specification.
// ---------------------------------------------------------------------------

/// Appending one address extends the encoded list by its four bytes.
proof fn lemma_addrs4_snoc(a: Seq<u32>, x: u32)
    ensures
        addrs4_bytes(a.push(x)) == addrs4_bytes(a) + u32_bytes(x),
    decreases a.len(),
{
    if a.len() == 0 {
        assert(a.push(x)[0] == x);
        assert(a.push(x).skip(1) =~= Seq::<u32>::empty());
        assert(addrs4_bytes(a.push(x)) == u32_bytes(x) + addrs4_bytes(Seq::<u32>::empty()));
        assert(addrs4_bytes(a.push(x)) =~= addrs4_bytes(a) + u32_bytes(x));
    } else {
        lemma_addrs4_snoc(a.skip(1), x);
        assert(a.push(x)[0] == a[0]);
        assert(a.push(x).skip(1) =~= a.skip(1).push(x));
        assert(addrs4_bytes(a.push(x)) == u32_bytes(a[0]) + addrs4_bytes(a.skip(1).push(x)));
        assert(addrs4_bytes(a.push(x)) =~= addrs4_bytes(a) + u32_bytes(x));
    }
}

/// The encoded address list is four bytes per address.
proof fn lemma_addrs4_len(a: Seq<u32>)
    ensures
        addrs4_bytes(a).len() == 4 * a.len(),
    decreases a.len(),
{
    if a.len() > 0 {
        lemma_addrs4_len(a.skip(1));
    }
}

/// The bytes of the `i`-th encoded address are the bytes of that address.
proof fn lemma_addrs4_index(a: Seq<u32>, i: int)
    requires
        0 <= i < a.len(),
    ensures
        forall|k: int| 0 <= k < 4 ==> addrs4_bytes(a)[4 * i + k] == u32_bytes(a[i])[k],
    decreases i,
{
    lemma_addrs4_len(a.skip(1));
    assert(addrs4_bytes(a) == u32_bytes(a[0]) + addrs4_bytes(a.skip(1)));
    if i == 0 {
        assert forall|k: int| 0 <= k < 4 implies addrs4_bytes(a)[4 * i + k] == u32_bytes(a[i])[k]
        by {
            assert(addrs4_bytes(a)[k] == u32_bytes(a[0])[k]);
        }
    } else {
        lemma_addrs4_index(a.skip(1), i - 1);
        assert forall|k: int| 0 <= k < 4 implies addrs4_bytes(a)[4 * i + k] == u32_bytes(a[i])[k]
        by {
            assert(addrs4_bytes(a)[4 * i + k] == addrs4_bytes(a.skip(1))[4 * (i - 1) + k]);
            assert(addrs4_bytes(a.skip(1))[4 * (i - 1) + k] == u32_bytes(a.skip(1)[i - 1])[k]);
            assert(a.skip(1)[i - 1] == a[i]);
        }
    }
}

/// Appending one route extends the encoded list by that route's bytes.
proof fn lemma_routes_snoc(rs: Seq<Dhcp4Route>, r: Dhcp4Route)
    ensures
        routes_bytes(rs.push(r)) == routes_bytes(rs) + route_bytes(r),
    decreases rs.len(),
{
    if rs.len() == 0 {
        assert(rs.push(r)[0] == r);
        assert(rs.push(r).skip(1) =~= Seq::<Dhcp4Route>::empty());
        assert(routes_bytes(rs.push(r)) == route_bytes(r) + routes_bytes(
            Seq::<Dhcp4Route>::empty(),
        ));
        assert(routes_bytes(rs.push(r)) =~= routes_bytes(rs) + route_bytes(r));
    } else {
        lemma_routes_snoc(rs.skip(1), r);
        assert(rs.push(r)[0] == rs[0]);
        assert(rs.push(r).skip(1) =~= rs.skip(1).push(r));
        assert(routes_bytes(rs.push(r)) == route_bytes(rs[0]) + routes_bytes(rs.skip(1).push(r)));
        assert(routes_bytes(rs.push(r)) =~= routes_bytes(rs) + route_bytes(r));
    }
}

/// Appending one option extends the encoded region by that option's frame.
proof fn lemma_enc_opts4_snoc(s: Seq<Opt4>, o: Opt4)
    ensures
        enc_opts4(s.push(o)) == enc_opts4(s) + enc_opt4(o),
    decreases s.len(),
{
    if s.len() == 0 {
        assert(s.push(o)[0] == o);
        assert(s.push(o).skip(1) =~= Seq::<Opt4>::empty());
        assert(enc_opts4(s.push(o)) == enc_opt4(o) + enc_opts4(Seq::<Opt4>::empty()));
        assert(enc_opts4(s.push(o)) =~= enc_opts4(s) + enc_opt4(o));
    } else {
        lemma_enc_opts4_snoc(s.skip(1), o);
        assert(s.push(o)[0] == s[0]);
        assert(s.push(o).skip(1) =~= s.skip(1).push(o));
        assert(enc_opts4(s.push(o)) == enc_opt4(s[0]) + enc_opts4(s.skip(1).push(o)));
        assert(enc_opts4(s.push(o)) =~= enc_opts4(s) + enc_opt4(o));
    }
}

/// A well-formed option's payload fits the one-byte length field.
proof fn lemma_wf_payload4_len(o: Opt4)
    requires
        wf_opt4(o),
    ensures
        opt4_payload(o).len() <= 255,
{
    match o {
        Opt4::Router(a) => {
            lemma_addrs4_len(a);
        },
        _ => {},
    }
}

// ---------------------------------------------------------------------------
// Executable encoding.
// ---------------------------------------------------------------------------

/// Wire code of a typed option.
fn opt_code(o: &Dhcp4Option) -> (r: u8)
    ensures
        r == opt4_code(o@),
{
    match o {
        Dhcp4Option::SubnetMask(_) => 1,
        Dhcp4Option::Router(_) => 3,
        Dhcp4Option::RequestedIpAddress(_) => 50,
        Dhcp4Option::AddressLeaseTime(_) => 51,
        Dhcp4Option::MessageType(_) => 53,
        Dhcp4Option::ServerIdentifier(_) => 54,
        Dhcp4Option::ParameterRequestList(_) => 55,
        Dhcp4Option::MaxMessageSize(_) => 57,
        Dhcp4Option::Renewal(_) => 58,
        Dhcp4Option::Rebinding(_) => 59,
        Dhcp4Option::ClientIdentifier(_) => 61,
        Dhcp4Option::ClasslessStaticRoute(_) => 121,
        Dhcp4Option::Unknown(c, _) => *c,
    }
}

/// Payload bytes of one option.
fn payload4(o: &Dhcp4Option) -> (r: Vec<u8>)
    requires
        wf_opt4(o@),
    ensures
        r@ == opt4_payload(o@),
{
    let mut r: Vec<u8> = Vec::new();
    match o {
        Dhcp4Option::SubnetMask(x) => {
            push_u32(&mut r, *x);
        },
        Dhcp4Option::Router(a) => {
            let mut j: usize = 0;
            while j < a.len()
                invariant
                    j <= a@.len(),
                    r@ == addrs4_bytes(a@.take(j as int)),
                decreases a@.len() - j,
            {
                push_u32(&mut r, a[j]);
                proof {
                    lemma_addrs4_snoc(a@.take(j as int), a@[j as int]);
                    assert(a@.take(j as int).push(a@[j as int]) =~= a@.take(j as int + 1));
                }
                j = j + 1;
            }
            assert(a@.take(a@.len() as int) =~= a@);
        },
        Dhcp4Option::RequestedIpAddress(x) => {
            push_u32(&mut r, *x);
        },
        Dhcp4Option::AddressLeaseTime(x) => {
            push_u32(&mut r, *x);
        },
        Dhcp4Option::MessageType(t) => {
            r.push(msg_type_code(*t));
            assert(r@ =~= seq![spec_msg_type_code(*t)]);
        },
        Dhcp4Option::ServerIdentifier(x) => {
            push_u32(&mut r, *x);
        },
        Dhcp4Option::ParameterRequestList(c) => {
            push_bytes(&mut r, c);
        },
        Dhcp4Option::MaxMessageSize(x) => {
            push_u16(&mut r, *x);
        },
        Dhcp4Option::Renewal(x) => {
            push_u32(&mut r, *x);
        },
        Dhcp4Option::Rebinding(x) => {
            push_u32(&mut r, *x);
        },
        Dhcp4Option::ClientIdentifier(b) => {
            push_bytes(&mut r, b);
        },
        Dhcp4Option::ClasslessStaticRoute(rs) => {
            let mut j: usize = 0;
            while j < rs.len()
                invariant
                    j <= rs@.len(),
                    r@ == routes_bytes(rs@.take(j as int)),
                    forall|t: int| 0 <= t < rs@.len() ==> wf_route(#[trigger] rs@[t]),
                decreases rs@.len() - j,
            {
                let ghost pre = r@;
                let route = rs[j];
                assert(wf_route(route));
                r.push(route.prefix_len);
                let mut ab: Vec<u8> = Vec::new();
                push_u32(&mut ab, route.prefix_addr);
                let n_oct: usize = (route.prefix_len as usize + 7) / 8;
                assert(n_oct <= 4 && n_oct as int == route_octets(route.prefix_len));
                let mut k: usize = 0;
                while k < n_oct
                    invariant
                        k <= n_oct <= 4,
                        ab@ == u32_bytes(route.prefix_addr),
                        r@ == pre + seq![route.prefix_len] + u32_bytes(route.prefix_addr).take(
                            k as int,
                        ),
                    decreases n_oct - k,
                {
                    r.push(ab[k]);
                    assert(r@ =~= pre + seq![route.prefix_len] + u32_bytes(
                        route.prefix_addr,
                    ).take(k as int + 1));
                    k = k + 1;
                }
                push_u32(&mut r, route.gateway);
                proof {
                    lemma_routes_snoc(rs@.take(j as int), rs@[j as int]);
                    assert(rs@.take(j as int).push(rs@[j as int]) =~= rs@.take(j as int + 1));
                    assert(r@ =~= routes_bytes(rs@.take(j as int + 1)));
                }
                j = j + 1;
            }
            assert(rs@.take(rs@.len() as int) =~= rs@);
        },
        Dhcp4Option::Unknown(_, d) => {
            push_bytes(&mut r, d);
        },
    }
    r
}

/// Encode a message to its complete wire form.
pub fn encode(m: &Dhcp4Message) -> (r: Vec<u8>)
    requires
        wf_msg4(m@),
    ensures
        r@ == spec_encode4(m@),
{
    let mut out: Vec<u8> = Vec::new();
    out.push(m.opcode);
    out.push(m.htype);
    out.push(6u8);
    out.push(0u8);
    assert(out@ =~= seq![m@.opcode, m@.htype, 6u8, 0u8]);
    push_u32(&mut out, m.xid);
    out.push(0u8);
    out.push(0u8);
    assert(out@ =~= (seq![m@.opcode, m@.htype, 6u8, 0u8] + u32_bytes(m@.xid)) + seq![0u8, 0u8]);
    push_u16(&mut out, m.flags);
    push_u32(&mut out, m.ciaddr);
    push_u32(&mut out, m.yiaddr);
    push_u32(&mut out, m.siaddr);
    push_u32(&mut out, m.giaddr);
    out.push(m.chaddr[0]);
    out.push(m.chaddr[1]);
    out.push(m.chaddr[2]);
    out.push(m.chaddr[3]);
    out.push(m.chaddr[4]);
    out.push(m.chaddr[5]);
    assert(out@ =~= seq![m@.opcode, m@.htype, 6u8, 0u8] + u32_bytes(m@.xid) + seq![0u8, 0u8]
        + u16_bytes(m@.flags) + u32_bytes(m@.ciaddr) + u32_bytes(m@.yiaddr) + u32_bytes(m@.siaddr)
        + u32_bytes(m@.giaddr) + m@.chaddr);
    push_zeros(&mut out, 10);
    push_zeros(&mut out, 64);
    push_zeros(&mut out, 128);
    out.push(0x63u8);
    out.push(0x82u8);
    out.push(0x53u8);
    out.push(0x63u8);
    assert(out@ =~= header4_bytes(m@));
    let mut j: usize = 0;
    while j < m.options.len()
        invariant
            j <= m.options@.len(),
            wf_msg4(m@),
            m@.options.len() == m.options@.len(),
            out@ == header4_bytes(m@) + enc_opts4(m@.options.take(j as int)),
        decreases m.options@.len() - j,
    {
        let ghost pre = out@;
        proof {
            assert(m@.options[j as int] == m.options[j as int]@);
            lemma_wf_payload4_len(m@.options[j as int]);
        }
        let payload = payload4(&m.options[j]);
        out.push(opt_code(&m.options[j]));
        out.push(payload.len() as u8);
        push_bytes(&mut out, &payload);
        proof {
            assert(out@ =~= pre + enc_opt4(m@.options[j as int]));
            lemma_enc_opts4_snoc(m@.options.take(j as int), m@.options[j as int]);
            assert(m@.options.take(j as int).push(m@.options[j as int]) =~= m@.options.take(
                j as int + 1,
            ));
            assert(out@ =~= header4_bytes(m@) + enc_opts4(m@.options.take(j as int + 1)));
        }
        j = j + 1;
    }
    assert(m@.options.take(m.options@.len() as int) =~= m@.options);
    out.push(255u8);
    assert(out@ =~= spec_encode4(m@));
    out
}

// ---------------------------------------------------------------------------
// Executable decoding.
// ---------------------------------------------------------------------------

/// Parse a classless-route payload.
fn decode_routes(d: &Vec<u8>) -> (r: Option<Vec<Dhcp4Route>>)
    ensures
        (match (r, dec_routes(d@, 0, Seq::empty())) {
            (Some(v), Some(s)) => v@ == s,
            (None, None) => true,
            _ => false,
        }),
{
    let n = d.len();
    let mut acc: Vec<Dhcp4Route> = Vec::new();
    let mut i: usize = 0;
    while i < n
        invariant
            i <= n,
            n == d@.len(),
            dec_routes(d@, i as int, acc@) == dec_routes(d@, 0, Seq::empty()),
        decreases n - i,
    {
        let p = d[i];
        if p > 32 {
            return None;
        }
        let n_oct: usize = (p as usize + 7) / 8;
        if n - i < 1 + n_oct + 4 {
            return None;
        }
        let x0 = if 0 < n_oct { d[i + 1] } else { 0u8 };
        let x1 = if 1 < n_oct { d[i + 2] } else { 0u8 };
        let x2 = if 2 < n_oct { d[i + 3] } else { 0u8 };
        let x3 = if 3 < n_oct { d[i + 4] } else { 0u8 };
        let addr = ((x0 as u32) << 24u32) | ((x1 as u32) << 16u32) | ((x2 as u32) << 8u32) | (
        x3 as u32);
        let gw = read_u32(d, i + 1 + n_oct);
        let route = Dhcp4Route { prefix_addr: addr, prefix_len: p, gateway: gw };
        proof {
            assert(n_oct as int == route_octets(p));
            assert(addr == be32(
                route_net_byte(d@, i as int + 1, n_oct as int, 0),
                route_net_byte(d@, i as int + 1, n_oct as int, 1),
                route_net_byte(d@, i as int + 1, n_oct as int, 2),
                route_net_byte(d@, i as int + 1, n_oct as int, 3),
            ));
        }
        acc.push(route);
        i = i + 1 + n_oct + 4;
    }
    Some(acc)
}

/// Parse one option payload into a typed option.
fn parse_opt(code: u8, d: Vec<u8>) -> (r: Option<Dhcp4Option>)
    ensures
        (match (r, parse_opt4(code, d@)) {
            (Some(o), Some(ov)) => o@ == ov,
            (None, None) => true,
            _ => false,
        }),
{
    if code == 1 {
        if d.len() == 4 {
            Some(Dhcp4Option::SubnetMask(read_u32(&d, 0)))
        } else {
            None
        }
    } else if code == 3 {
        if d.len() % 4 == 0 {
            let n = d.len();
            let cnt = n / 4;
            let mut a: Vec<u32> = Vec::new();
            let mut j: usize = 0;
            while j < cnt
                invariant
                    j <= cnt,
                    n == d@.len(),
                    4 * cnt == d@.len(),
                    a@.len() == j,
                    forall|t: int| 0 <= t < j ==> a@[t] == be32_at(d@, 4 * t),
                decreases cnt - j,
            {
                a.push(read_u32(&d, 4 * j));
                j = j + 1;
            }
            assert(a@ =~= parse_addrs4(d@));
            Some(Dhcp4Option::Router(a))
        } else {
            None
        }
    } else if code == 50 {
        if d.len() == 4 {
            Some(Dhcp4Option::RequestedIpAddress(read_u32(&d, 0)))
        } else {
            None
        }
    } else if code == 51 {
        if d.len() == 4 {
            Some(Dhcp4Option::AddressLeaseTime(read_u32(&d, 0)))
        } else {
            None
        }
    } else if code == 53 {
        if d.len() == 1 {
            Some(Dhcp4Option::MessageType(msg_type_of(d[0])))
        } else {
            None
        }
    } else if code == 54 {
        if d.len() == 4 {
            Some(Dhcp4Option::ServerIdentifier(read_u32(&d, 0)))
        } else {
            None
        }
    } else if code == 55 {
        Some(Dhcp4Option::ParameterRequestList(d))
    } else if code == 57 {
        if d.len() == 2 {
            Some(Dhcp4Option::MaxMessageSize(read_u16(&d, 0)))
        } else {
            None
        }
    } else if code == 58 {
        if d.len() == 4 {
            Some(Dhcp4Option::Renewal(read_u32(&d, 0)))
        } else {
            None
        }
    } else if code == 59 {
        if d.len() == 4 {
            Some(Dhcp4Option::Rebinding(read_u32(&d, 0)))
        } else {
            None
        }
    } else if code == 61 {
        if d.len() > 0 {
            Some(Dhcp4Option::ClientIdentifier(d))
        } else {
            None
        }
    } else if code == 121 {
        match decode_routes(&d) {
            Some(rs) => Some(Dhcp4Option::ClasslessStaticRoute(rs)),
            None => None,
        }
    } else {
        Some(Dhcp4Option::Unknown(code, d))
    }
}

/// Decode a complete datagram into a message, or say how it is malformed.
pub fn decode(b: &Vec<u8>) -> (r: Result<Dhcp4Message, Dhcp4Error>)
    ensures
        (match (r, spec_decode4(b@)) {
            (Ok(m), Ok(mv)) => m@ == mv,
            (Err(e1), Err(e2)) => e1 == e2,
            _ => false,
        }),
{
    let n = b.len();
    if n < 240 {
        return Err(Dhcp4Error::Truncated);
    }
    if !(b[236] == 0x63 && b[237] == 0x82 && b[238] == 0x53 && b[239] == 0x63) {
        proof {
            assert(b@.subrange(236, 240)[0] == b@[236]);
            assert(b@.subrange(236, 240)[1] == b@[237]);
            assert(b@.subrange(236, 240)[2] == b@[238]);
            assert(b@.subrange(236, 240)[3] == b@[239]);
        }
        return Err(Dhcp4Error::BadMagic);
    }
    assert(b@.subrange(236, 240) =~= magic4());
    let mut opts: Vec<Dhcp4Option> = Vec::new();
    assert(opts.deep_view() =~= Seq::<Opt4>::empty());
    let mut i: usize = 240;
    while i < n
        invariant
            240 <= i <= n,
            n == b@.len(),
            b@.subrange(236, 240) == magic4(),
            dec_opts4(b@, i as int, opts.deep_view()) == dec_opts4(b@, 240, Seq::empty()),
        decreases n - i,
    {
        let code = b[i];
        if code == 255 {
            proof {
                assert(dec_opts4(b@, i as int, opts.deep_view()) == Some(opts.deep_view()));
                assert(dec_opts4(b@, n as int, opts.deep_view()) == Some(opts.deep_view()));
            }
            i = n;
        } else if code == 0 {
            proof {
                assert(dec_opts4(b@, i as int, opts.deep_view()) == dec_opts4(
                    b@,
                    i as int + 1,
                    opts.deep_view(),
                ));
            }
            i = i + 1;
        } else if n - i < 2 {
            proof {
                assert(dec_opts4(b@, i as int, opts.deep_view()) == None::<Seq<Opt4>>);
            }
            return Err(Dhcp4Error::Truncated);
        } else {
            let l = b[i + 1] as usize;
            if l > n - (i + 2) {
                proof {
                    assert(dec_opts4(b@, i as int, opts.deep_view()) == None::<Seq<Opt4>>);
                }
                return Err(Dhcp4Error::Truncated);
            }
            let data = copy_range(b, i + 2, i + 2 + l);
            let ghost pre = opts.deep_view();
            let ghost istep = i as int;
            match parse_opt(code, data) {
                Some(o) => {
                    opts.push(o);
                    assert(opts.deep_view() =~= pre.push(o@));
                },
                None => {},
            }
            proof {
                assert(dec_opts4(b@, istep, pre) == dec_opts4(b@, istep + 2 + l, opts.deep_view()));
            }
            i = i + 2 + l;
        }
    }
    let chaddr: [u8; 6] = [b[28], b[29], b[30], b[31], b[32], b[33]];
    let m = Dhcp4Message {
        opcode: b[0],
        htype: b[1],
        xid: read_u32(b, 4),
        flags: read_u16(b, 10),
        ciaddr: read_u32(b, 12),
        yiaddr: read_u32(b, 16),
        siaddr: read_u32(b, 20),
        giaddr: read_u32(b, 24),
        chaddr,
        options: opts,
    };
    proof {
        assert(m.chaddr@ =~= b@.subrange(28, 34));
        assert(spec_decode4(b@) is Ok);
        assert(m@ =~= spec_decode4(b@)->Ok_0);
    }
    Ok(m)
}


// ---------------------------------------------------------------------------
// The round trip: decoding an encoded well-formed message gives it back.
// ---------------------------------------------------------------------------

/// A well-formed option's wire code is neither the pad nor the end byte.
proof fn lemma_opt4_code_ok(o: Opt4)
    requires
        wf_opt4(o),
    ensures
        opt4_code(o) != 0 && opt4_code(o) != 255,
{
    match o {
        Opt4::Unknown(c, _) => {
            assert(c != 0 && c != 255);
        },
        _ => {},
    }
}

/// Parsing the encoded payload of a well-formed option gives the option back.
proof fn lemma_parse_enc_opt4(o: Opt4)
    requires
        wf_opt4(o),
    ensures
        parse_opt4(opt4_code(o), opt4_payload(o)) == Some(o),
{
    match o {
        Opt4::SubnetMask(x) => {
            lemma_be32_of_u32_bytes(x);
        },
        Opt4::Router(a) => {
            let d = addrs4_bytes(a);
            lemma_addrs4_len(a);
            assert forall|t: int| 0 <= t < a.len() implies parse_addrs4(d)[t] == a[t] by {
                lemma_addrs4_index(a, t);
                lemma_be32_of_u32_bytes(a[t]);
                assert(d[4 * t + 0] == u32_bytes(a[t])[0]);
                assert(d[4 * t + 1] == u32_bytes(a[t])[1]);
                assert(d[4 * t + 2] == u32_bytes(a[t])[2]);
                assert(d[4 * t + 3] == u32_bytes(a[t])[3]);
            }
            assert(parse_addrs4(d) =~= a);
        },
        Opt4::RequestedIpAddress(x) => {
            lemma_be32_of_u32_bytes(x);
        },
        Opt4::AddressLeaseTime(x) => {
            lemma_be32_of_u32_bytes(x);
        },
        Opt4::MessageType(_) => {},
        Opt4::ServerIdentifier(x) => {
            lemma_be32_of_u32_bytes(x);
        },
        Opt4::ParameterRequestList(_) => {},
        Opt4::MaxMessageSize(x) => {
            lemma_be16_of_u16_bytes(x);
        },
        Opt4::Renewal(x) => {
            lemma_be32_of_u32_bytes(x);
        },
        Opt4::Rebinding(x) => {
            lemma_be32_of_u32_bytes(x);
        },
        Opt4::ClientIdentifier(_) => {},
        Opt4::ClasslessStaticRoute(rs) => {
            let d = routes_bytes(rs);
            assert(d.subrange(0, d.len() as int) =~= d);
            lemma_dec_enc_routes(d, 0, rs, Seq::empty());
            assert(Seq::<Dhcp4Route>::empty() + rs =~= rs);
        },
        Opt4::Unknown(_, _) => {},
    }
}

/// Decoding a region that holds the encoding of a well-formed route list
/// yields exactly those routes.
proof fn lemma_dec_enc_routes(d: Seq<u8>, i: int, rs: Seq<Dhcp4Route>, acc: Seq<Dhcp4Route>)
    requires
        0 <= i <= d.len(),
        d.subrange(i, d.len() as int) == routes_bytes(rs),
        forall|t: int| 0 <= t < rs.len() ==> wf_route(#[trigger] rs[t]),
    ensures
        dec_routes(d, i, acc) == Some(acc + rs),
    decreases rs.len(),
{
    if rs.len() == 0 {
        assert(routes_bytes(rs).len() == 0);
        assert(i == d.len());
        assert(acc + rs =~= acc);
    } else {
        let s = d.subrange(i, d.len() as int);
        let r = rs[0];
        let p = r.prefix_len;
        let n = route_octets(p);
        assert(wf_route(r));
        assert(0 <= n <= 4);
        let e = route_bytes(r);
        assert(e.len() == 5 + n);
        assert(s == e + routes_bytes(rs.skip(1)));
        assert(d[i] == s[0] && s[0] == e[0] && e[0] == p);
        assert(i + 1 + n + 4 <= d.len());
        assert forall|k: int| 0 <= k < 4 implies route_net_byte(d, i + 1, n, k) == u32_bytes(
            r.prefix_addr,
        )[k] by {
            if k < n {
                assert(d[i + 1 + k] == s[1 + k]);
                assert(s[1 + k] == e[1 + k]);
                assert(e[1 + k] == u32_bytes(r.prefix_addr).take(n)[k]);
            }
        }
        lemma_be32_of_u32_bytes(r.prefix_addr);
        assert forall|k: int| 0 <= k < 4 implies d[i + 1 + n + k] == u32_bytes(r.gateway)[k] by {
            assert(d[i + 1 + n + k] == s[1 + n + k]);
            assert(s[1 + n + k] == e[1 + n + k]);
            assert(e[1 + n + k] == u32_bytes(r.gateway)[k]);
        }
        assert(be32_at(d, i + 1 + n) == be32(
            u32_bytes(r.gateway)[0],
            u32_bytes(r.gateway)[1],
            u32_bytes(r.gateway)[2],
            u32_bytes(r.gateway)[3],
        ));
        lemma_be32_of_u32_bytes(r.gateway);
        let rr = Dhcp4Route {
            prefix_addr: be32(
                route_net_byte(d, i + 1, n, 0),
                route_net_byte(d, i + 1, n, 1),
                route_net_byte(d, i + 1, n, 2),
                route_net_byte(d, i + 1, n, 3),
            ),
            prefix_len: p,
            gateway: be32_at(d, i + 1 + n),
        };
        assert(rr == r);
        assert forall|k: int| 0 <= k < routes_bytes(rs.skip(1)).len() implies d.subrange(
            i + 5 + n,
            d.len() as int,
        )[k] == routes_bytes(rs.skip(1))[k] by {
            assert(d.subrange(i + 5 + n, d.len() as int)[k] == d[i + 5 + n + k]);
            assert(d[i + 5 + n + k] == s[5 + n + k]);
            assert(s[5 + n + k] == routes_bytes(rs.skip(1))[k]);
        }
        assert(d.subrange(i + 5 + n, d.len() as int) =~= routes_bytes(rs.skip(1)));
        lemma_dec_enc_routes(d, i + 5 + n, rs.skip(1), acc.push(r));
        assert(dec_routes(d, i, acc) == dec_routes(d, i + 5 + n, acc.push(r)));
        assert(acc.push(r) + rs.skip(1) =~= acc + rs);
    }
}

/// Walking a region that holds the encoding of well-formed options, closed by
/// the end option, yields exactly those options.
proof fn lemma_rt_opts4(b: Seq<u8>, i: int, opts: Seq<Opt4>, acc: Seq<Opt4>)
    requires
        0 <= i <= b.len(),
        b.subrange(i, b.len() as int) == enc_opts4(opts) + seq![255u8],
        forall|t: int| 0 <= t < opts.len() ==> wf_opt4(#[trigger] opts[t]),
    ensures
        dec_opts4(b, i, acc) == Some(acc + opts),
    decreases opts.len(),
{
    let s = b.subrange(i, b.len() as int);
    if opts.len() == 0 {
        assert(enc_opts4(opts).len() == 0);
        assert(b.len() - i == 1);
        assert(b[i] == s[0] && s[0] == 255);
        assert(acc + opts =~= acc);
    } else {
        let o = opts[0];
        assert(wf_opt4(o));
        lemma_opt4_code_ok(o);
        lemma_wf_payload4_len(o);
        let e = enc_opt4(o);
        let pl = opt4_payload(o);
        assert(e.len() == 2 + pl.len());
        assert(enc_opts4(opts) == e + enc_opts4(opts.skip(1)));
        assert(s == (e + enc_opts4(opts.skip(1))) + seq![255u8]);
        assert(s.len() == b.len() - i);
        assert(s.len() == e.len() + enc_opts4(opts.skip(1)).len() + 1);
        assert(i + 2 + pl.len() <= b.len());
        assert(b[i] == s[0] && s[0] == e[0] && e[0] == opt4_code(o));
        assert(b[i + 1] == s[1] && s[1] == e[1] && e[1] == pl.len() as u8);
        assert(b[i + 1] as int == pl.len());
        assert forall|k: int| 0 <= k < pl.len() implies b.subrange(
            i + 2,
            i + 2 + pl.len() as int,
        )[k] == pl[k] by {
            assert(b.subrange(i + 2, i + 2 + pl.len() as int)[k] == b[i + 2 + k]);
            assert(b[i + 2 + k] == s[2 + k]);
            assert(s[2 + k] == e[2 + k]);
            assert(e[2 + k] == pl[k]);
        }
        assert(b.subrange(i + 2, i + 2 + pl.len() as int) =~= pl);
        lemma_parse_enc_opt4(o);
        assert(parse_opt4(b[i], b.subrange(i + 2, i + 2 + pl.len() as int)) == Some(o));
        assert(dec_opts4(b, i, acc) == dec_opts4(b, i + 2 + pl.len(), acc.push(o)));
        assert forall|k: int| 0 <= k < b.len() - (i + 2 + pl.len()) implies b.subrange(
            i + 2 + pl.len() as int,
            b.len() as int,
        )[k] == (enc_opts4(opts.skip(1)) + seq![255u8])[k] by {
            assert(b.subrange(i + 2 + pl.len() as int, b.len() as int)[k] == b[i + 2 + pl.len()
                + k]);
            assert(b[i + 2 + pl.len() + k] == s[2 + pl.len() + k]);
            assert(s[2 + pl.len() + k] == (enc_opts4(opts.skip(1)) + seq![255u8])[k]);
        }
        assert(b.subrange(i + 2 + pl.len() as int, b.len() as int) =~= enc_opts4(opts.skip(1))
            + seq![255u8]);
        lemma_rt_opts4(b, i + 2 + pl.len() as int, opts.skip(1), acc.push(o));
        assert(acc.push(o) + opts.skip(1) =~= acc + opts);
    }
}

/// The round-trip law: for every well-formed message, decoding its encoding
/// yields the message itself, header fields and option list alike.
pub proof fn lemma_encode4_decode4(m: Msg4)
    requires
        wf_msg4(m),
    ensures
        spec_decode4(spec_encode4(m)) == Ok::<Msg4, Dhcp4Error>(m),
{
    let h = header4_bytes(m);
    let b = spec_encode4(m);
    assert(zero_bytes(10).len() == 10 && zero_bytes(64).len() == 64 && zero_bytes(128).len()
        == 128);
    assert(h.len() == 240);
    assert(b.len() >= 241);
    assert forall|k: int| 0 <= k < 240 implies b[k] == h[k] by {}
    assert(b.subrange(236, 240) =~= magic4());
    assert(b[0] == m.opcode);
    assert(b[1] == m.htype);
    assert(b[4] == u32_bytes(m.xid)[0] && b[5] == u32_bytes(m.xid)[1] && b[6] == u32_bytes(
        m.xid,
    )[2] && b[7] == u32_bytes(m.xid)[3]);
    lemma_be32_of_u32_bytes(m.xid);
    assert(b[10] == u16_bytes(m.flags)[0] && b[11] == u16_bytes(m.flags)[1]);
    lemma_be16_of_u16_bytes(m.flags);
    assert(b[12] == u32_bytes(m.ciaddr)[0] && b[13] == u32_bytes(m.ciaddr)[1] && b[14]
        == u32_bytes(m.ciaddr)[2] && b[15] == u32_bytes(m.ciaddr)[3]);
    lemma_be32_of_u32_bytes(m.ciaddr);
    assert(b[16] == u32_bytes(m.yiaddr)[0] && b[17] == u32_bytes(m.yiaddr)[1] && b[18]
        == u32_bytes(m.yiaddr)[2] && b[19] == u32_bytes(m.yiaddr)[3]);
    lemma_be32_of_u32_bytes(m.yiaddr);
    assert(b[20] == u32_bytes(m.siaddr)[0] && b[21] == u32_bytes(m.siaddr)[1] && b[22]
        == u32_bytes(m.siaddr)[2] && b[23] == u32_bytes(m.siaddr)[3]);
    lemma_be32_of_u32_bytes(m.siaddr);
    assert(b[24] == u32_bytes(m.giaddr)[0] && b[25] == u32_bytes(m.giaddr)[1] && b[26]
        == u32_bytes(m.giaddr)[2] && b[27] == u32_bytes(m.giaddr)[3]);
    lemma_be32_of_u32_bytes(m.giaddr);
    assert(b.subrange(28, 34) =~= m.chaddr);
    assert(b.subrange(240, b.len() as int) =~= enc_opts4(m.options) + seq![255u8]);
    lemma_rt_opts4(b, 240, m.options, Seq::empty());
    assert(Seq::<Opt4>::empty() + m.options =~= m.options);
    let dm = spec_decode4(b)->Ok_0;
    assert(dm =~= m);
}

} // verus!
