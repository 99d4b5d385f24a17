//! Executable DHCPv6 wire codec, proved equal to the specification-level
//! encoding and decoding, nested prefix-delegation containers included.

use vstd::prelude::*;

use crate::ipv6::{
    addrs16_bytes, dec_names, dec_opts6, dec_pdopts, dec_prefopts, dec_segs, enc_opt6, enc_opts6,
    enc_pdopts, enc_prefopts, frame6, groups16, iapd_bytes, iaprefix_bytes, msg_type6_code,
    msg_type6_of, name_labels, names_bytes, opt6_code, opt6_payload, oro_bytes, parse_iapd,
    parse_iaprefix, parse_opt6, parse_oro, parse_pdopt, parse_prefopt, pdopt_code, pdopt_payload,
    prefopt_code, prefopt_payload, segs_bytes, spec_decode6, spec_encode6, spec_msg_type6_code,
    spec_msg_type6_of, wf_iapd, wf_iaprefix,
    wf_msg6, wf_opt6, wf_pdopt, wf_prefopt, xid_bytes, xid_of, Dhcp6Error, Dhcp6Message,
    Dhcp6Option, DomainName, IaPd, IaPrefix, Msg6, Opt6, PdOpt, PdOptV, PrefixOpt, PrefixOptV,
};
use crate::wire::{
    be16_at, copy_range, lemma_be16_of_u16_bytes, push_bytes, push_u16, push_u32, read16,
    read_u16, read_u32, u16_bytes, u32_bytes,
};

verus! {

// ---------------------------------------------------------------------------
// Structural lemmas about the encoding specification.
// ---------------------------------------------------------------------------

/// Appending one code extends the encoded request list by its two bytes.
proof fn lemma_oro_snoc(cs: Seq<u16>, x: u16)
    ensures
        oro_bytes(cs.push(x)) == oro_bytes(cs) + u16_bytes(x),
    decreases cs.len(),
{
    if cs.len() == 0 {
        assert(cs.push(x)[0] == x);
        assert(cs.push(x).skip(1) =~= Seq::<u16>::empty());
        assert(oro_bytes(cs.push(x)) == u16_bytes(x) + oro_bytes(Seq::<u16>::empty()));
        assert(oro_bytes(cs.push(x)) =~= oro_bytes(cs) + u16_bytes(x));
    } else {
        lemma_oro_snoc(cs.skip(1), x);
        assert(cs.push(x)[0] == cs[0]);
        assert(cs.push(x).skip(1) =~= cs.skip(1).push(x));
        assert(oro_bytes(cs.push(x)) == u16_bytes(cs[0]) + oro_bytes(cs.skip(1).push(x)));
        assert(oro_bytes(cs.push(x)) =~= oro_bytes(cs) + u16_bytes(x));
    }
}

/// Appending one address extends the encoded list by its bytes.
proof fn lemma_addrs16_snoc(a: Seq<Seq<u8>>, x: Seq<u8>)
    ensures
        addrs16_bytes(a.push(x)) == addrs16_bytes(a) + x,
    decreases a.len(),
{
    if a.len() == 0 {
        assert(a.push(x)[0] == x);
        assert(a.push(x).skip(1) =~= Seq::<Seq<u8>>::empty());
        assert(addrs16_bytes(a.push(x)) == x + addrs16_bytes(Seq::<Seq<u8>>::empty()));
        assert(addrs16_bytes(a.push(x)) =~= addrs16_bytes(a) + x);
    } else {
        lemma_addrs16_snoc(a.skip(1), x);
        assert(a.push(x)[0] == a[0]);
        assert(a.push(x).skip(1) =~= a.skip(1).push(x));
        assert(addrs16_bytes(a.push(x)) == a[0] + addrs16_bytes(a.skip(1).push(x)));
        assert(addrs16_bytes(a.push(x)) =~= addrs16_bytes(a) + x);
    }
}

/// Appending one segment extends the encoded list by its framed bytes.
proof fn lemma_segs_snoc(segs: Seq<Seq<u8>>, x: Seq<u8>)
    ensures
        segs_bytes(segs.push(x)) == segs_bytes(segs) + u16_bytes(x.len() as u16) + x,
    decreases segs.len(),
{
    if segs.len() == 0 {
        assert(segs.push(x)[0] == x);
        assert(segs.push(x).skip(1) =~= Seq::<Seq<u8>>::empty());
        assert(segs_bytes(segs.push(x)) == u16_bytes(x.len() as u16) + x + segs_bytes(
            Seq::<Seq<u8>>::empty(),
        ));
        assert(segs_bytes(segs.push(x)) =~= segs_bytes(segs) + u16_bytes(x.len() as u16) + x);
    } else {
        lemma_segs_snoc(segs.skip(1), x);
        assert(segs.push(x)[0] == segs[0]);
        assert(segs.push(x).skip(1) =~= segs.skip(1).push(x));
        assert(segs_bytes(segs.push(x)) == u16_bytes(segs[0].len() as u16) + segs[0] + segs_bytes(
            segs.skip(1).push(x),
        ));
        assert(segs_bytes(segs.push(x)) =~= segs_bytes(segs) + u16_bytes(x.len() as u16) + x);
    }
}

/// Appending one name extends the encoded list by that name's bytes.
proof fn lemma_names_snoc(ns: Seq<Seq<Seq<u8>>>, x: Seq<Seq<u8>>)
    ensures
        names_bytes(ns.push(x)) == names_bytes(ns) + crate::ipv6::name_bytes(x),
    decreases ns.len(),
{
    if ns.len() == 0 {
        assert(ns.push(x)[0] == x);
        assert(ns.push(x).skip(1) =~= Seq::<Seq<Seq<u8>>>::empty());
        assert(names_bytes(ns.push(x)) == crate::ipv6::name_bytes(x) + names_bytes(
            Seq::<Seq<Seq<u8>>>::empty(),
        ));
        assert(names_bytes(ns.push(x)) =~= names_bytes(ns) + crate::ipv6::name_bytes(x));
    } else {
        lemma_names_snoc(ns.skip(1), x);
        assert(ns.push(x)[0] == ns[0]);
        assert(ns.push(x).skip(1) =~= ns.skip(1).push(x));
        assert(names_bytes(ns.push(x)) == crate::ipv6::name_bytes(ns[0]) + names_bytes(
            ns.skip(1).push(x),
        ));
        assert(names_bytes(ns.push(x)) =~= names_bytes(ns) + crate::ipv6::name_bytes(x));
    }
}

/// Appending one nested option extends the encoded IA-Prefix region.
proof fn lemma_enc_prefopts_snoc(s: Seq<PrefixOptV>, o: PrefixOptV)
    ensures
        enc_prefopts(s.push(o)) == enc_prefopts(s) + frame6(prefopt_code(o), prefopt_payload(o)),
    decreases s.len(),
{
    if s.len() == 0 {
        assert(s.push(o)[0] == o);
        assert(s.push(o).skip(1) =~= Seq::<PrefixOptV>::empty());
        assert(enc_prefopts(s.push(o)) == frame6(prefopt_code(o), prefopt_payload(o))
            + enc_prefopts(Seq::<PrefixOptV>::empty()));
        assert(enc_prefopts(s.push(o)) =~= enc_prefopts(s) + frame6(
            prefopt_code(o),
            prefopt_payload(o),
        ));
    } else {
        lemma_enc_prefopts_snoc(s.skip(1), o);
        assert(s.push(o)[0] == s[0]);
        assert(s.push(o).skip(1) =~= s.skip(1).push(o));
        assert(enc_prefopts(s.push(o)) == frame6(prefopt_code(s[0]), prefopt_payload(s[0]))
            + enc_prefopts(s.skip(1).push(o)));
        assert(enc_prefopts(s.push(o)) =~= enc_prefopts(s) + frame6(
            prefopt_code(o),
            prefopt_payload(o),
        ));
    }
}

/// Appending one nested option extends the encoded IA-PD region.
proof fn lemma_enc_pdopts_snoc(s: Seq<PdOptV>, o: PdOptV)
    ensures
        enc_pdopts(s.push(o)) == enc_pdopts(s) + frame6(pdopt_code(o), pdopt_payload(o)),
    decreases s.len(),
{
    if s.len() == 0 {
        assert(s.push(o)[0] == o);
        assert(s.push(o).skip(1) =~= Seq::<PdOptV>::empty());
        assert(enc_pdopts(s.push(o)) == frame6(pdopt_code(o), pdopt_payload(o)) + enc_pdopts(
            Seq::<PdOptV>::empty(),
        ));
        assert(enc_pdopts(s.push(o)) =~= enc_pdopts(s) + frame6(pdopt_code(o), pdopt_payload(o)));
    } else {
        lemma_enc_pdopts_snoc(s.skip(1), o);
        assert(s.push(o)[0] == s[0]);
        assert(s.push(o).skip(1) =~= s.skip(1).push(o));
        assert(enc_pdopts(s.push(o)) == frame6(pdopt_code(s[0]), pdopt_payload(s[0]))
            + enc_pdopts(s.skip(1).push(o)));
        assert(enc_pdopts(s.push(o)) =~= enc_pdopts(s) + frame6(pdopt_code(o), pdopt_payload(o)));
    }
}

/// Appending one option extends the encoded region by that option's frame.
proof fn lemma_enc_opts6_snoc(s: Seq<Opt6>, o: Opt6)
    ensures
        enc_opts6(s.push(o)) == enc_opts6(s) + enc_opt6(o),
    decreases s.len(),
{
    if s.len() == 0 {
        assert(s.push(o)[0] == o);
        assert(s.push(o).skip(1) =~= Seq::<Opt6>::empty());
        assert(enc_opts6(s.push(o)) == enc_opt6(o) + enc_opts6(Seq::<Opt6>::empty()));
        assert(enc_opts6(s.push(o)) =~= enc_opts6(s) + enc_opt6(o));
    } else {
        lemma_enc_opts6_snoc(s.skip(1), o);
        assert(s.push(o)[0] == s[0]);
        assert(s.push(o).skip(1) =~= s.skip(1).push(o));
        assert(enc_opts6(s.push(o)) == enc_opt6(s[0]) + enc_opts6(s.skip(1).push(o)));
        assert(enc_opts6(s.push(o)) =~= enc_opts6(s) + enc_opt6(o));
    }
}

// ---------------------------------------------------------------------------
// Executable encoding.
// ---------------------------------------------------------------------------

/// Append one nested IA-Prefix option frame.
fn enc_prefopt_into(out: &mut Vec<u8>, o: &PrefixOpt)
    requires
        wf_prefopt(o@),
    ensures
        final(out)@ == old(out)@ + frame6(prefopt_code(o@), prefopt_payload(o@)),
{
    let ghost pre = out@;
    match o {
        PrefixOpt::Status(st, m) => {
            push_u16(out, 13);
            push_u16(out, (m.len() + 2) as u16);
            push_u16(out, *st);
            push_bytes(out, m);
            assert(out@ =~= pre + frame6(prefopt_code(o@), prefopt_payload(o@)));
        },
        PrefixOpt::Other(c, d) => {
            push_u16(out, *c);
            push_u16(out, d.len() as u16);
            push_bytes(out, d);
            assert(out@ =~= pre + frame6(prefopt_code(o@), prefopt_payload(o@)));
        },
    }
}

/// Encode one IA-Prefix payload.
fn enc_iaprefix(p: &IaPrefix) -> (r: Vec<u8>)
    requires
        wf_iaprefix(p@),
    ensures
        r@ == iaprefix_bytes(p@),
{
    let mut r: Vec<u8> = Vec::new();
    push_u32(&mut r, p.preferred_lifetime);
    push_u32(&mut r, p.valid_lifetime);
    r.push(p.prefix_len);
    let mut k: usize = 0;
    while k < 16
        invariant
            k <= 16,
            p.prefix_ip@.len() == 16,
            r@ == u32_bytes(p@.preferred_lifetime) + u32_bytes(p@.valid_lifetime) + seq![
                p@.prefix_len,
            ] + p.prefix_ip@.take(k as int),
        decreases 16 - k,
    {
        r.push(p.prefix_ip[k]);
        assert(r@ =~= u32_bytes(p@.preferred_lifetime) + u32_bytes(p@.valid_lifetime) + seq![
            p@.prefix_len,
        ] + p.prefix_ip@.take(k as int + 1));
        k = k + 1;
    }
    assert(p.prefix_ip@.take(16) =~= p.prefix_ip@);
    let ghost mid = r@;
    let mut j: usize = 0;
    while j < p.opts.len()
        invariant
            j <= p.opts@.len(),
            p@.opts.len() == p.opts@.len(),
            forall|t: int| 0 <= t < p@.opts.len() ==> wf_prefopt(#[trigger] p@.opts[t]),
            r@ == mid + enc_prefopts(p@.opts.take(j as int)),
        decreases p.opts@.len() - j,
    {
        proof {
            assert(p@.opts[j as int] == p.opts[j as int]@);
        }
        enc_prefopt_into(&mut r, &p.opts[j]);
        proof {
            lemma_enc_prefopts_snoc(p@.opts.take(j as int), p@.opts[j as int]);
            assert(p@.opts.take(j as int).push(p@.opts[j as int]) =~= p@.opts.take(j as int + 1));
            assert(r@ =~= mid + enc_prefopts(p@.opts.take(j as int + 1)));
        }
        j = j + 1;
    }
    assert(p@.opts.take(p.opts@.len() as int) =~= p@.opts);
    assert(r@ =~= iaprefix_bytes(p@));
    r
}

/// Append one nested IA-PD option frame.
fn enc_pdopt_into(out: &mut Vec<u8>, o: &PdOpt)
    requires
        wf_pdopt(o@),
    ensures
        final(out)@ == old(out)@ + frame6(pdopt_code(o@), pdopt_payload(o@)),
{
    let ghost pre = out@;
    match o {
        PdOpt::Prefix(p) => {
            let body = enc_iaprefix(p);
            push_u16(out, 26);
            push_u16(out, body.len() as u16);
            push_bytes(out, &body);
            assert(out@ =~= pre + frame6(pdopt_code(o@), pdopt_payload(o@)));
        },
        PdOpt::Status(st, m) => {
            push_u16(out, 13);
            push_u16(out, (m.len() + 2) as u16);
            push_u16(out, *st);
            push_bytes(out, m);
            assert(out@ =~= pre + frame6(pdopt_code(o@), pdopt_payload(o@)));
        },
        PdOpt::Other(c, d) => {
            push_u16(out, *c);
            push_u16(out, d.len() as u16);
            push_bytes(out, d);
            assert(out@ =~= pre + frame6(pdopt_code(o@), pdopt_payload(o@)));
        },
    }
}

/// Encode one IA-PD payload.
fn enc_iapd(pd: &IaPd) -> (r: Vec<u8>)
    requires
        wf_iapd(pd@),
    ensures
        r@ == iapd_bytes(pd@),
{
    let mut r: Vec<u8> = Vec::new();
    push_u32(&mut r, pd.id);
    push_u32(&mut r, pd.t1);
    push_u32(&mut r, pd.t2);
    let ghost mid = r@;
    let mut j: usize = 0;
    while j < pd.opts.len()
        invariant
            j <= pd.opts@.len(),
            pd@.opts.len() == pd.opts@.len(),
            forall|t: int| 0 <= t < pd@.opts.len() ==> wf_pdopt(#[trigger] pd@.opts[t]),
            r@ == mid + enc_pdopts(pd@.opts.take(j as int)),
        decreases pd.opts@.len() - j,
    {
        proof {
            assert(pd@.opts[j as int] == pd.opts[j as int]@);
        }
        enc_pdopt_into(&mut r, &pd.opts[j]);
        proof {
            lemma_enc_pdopts_snoc(pd@.opts.take(j as int), pd@.opts[j as int]);
            assert(pd@.opts.take(j as int).push(pd@.opts[j as int]) =~= pd@.opts.take(
                j as int + 1,
            ));
            assert(r@ =~= mid + enc_pdopts(pd@.opts.take(j as int + 1)));
        }
        j = j + 1;
    }
    assert(pd@.opts.take(pd.opts@.len() as int) =~= pd@.opts);
    assert(r@ =~= iapd_bytes(pd@));
    r
}

/// Payload bytes of one top-level option.
fn payload6(o: &Dhcp6Option) -> (r: Vec<u8>)
    requires
        wf_opt6(o@),
    ensures
        r@ == opt6_payload(o@),
{
    let mut r: Vec<u8> = Vec::new();
    match o {
        Dhcp6Option::ClientId(b) => {
            push_bytes(&mut r, b);
        },
        Dhcp6Option::ServerId(b) => {
            push_bytes(&mut r, b);
        },
        Dhcp6Option::Oro(cs) => {
            let mut j: usize = 0;
            while j < cs.len()
                invariant
                    j <= cs@.len(),
                    r@ == oro_bytes(cs@.take(j as int)),
                decreases cs@.len() - j,
            {
                push_u16(&mut r, cs[j]);
                proof {
                    lemma_oro_snoc(cs@.take(j as int), cs@[j as int]);
                    assert(cs@.take(j as int).push(cs@[j as int]) =~= cs@.take(j as int + 1));
                }
                j = j + 1;
            }
            assert(cs@.take(cs@.len() as int) =~= cs@);
        },
        Dhcp6Option::ElapsedTime(x) => {
            push_u16(&mut r, *x);
        },
        Dhcp6Option::StatusCode(st, m) => {
            push_u16(&mut r, *st);
            push_bytes(&mut r, m);
        },
        Dhcp6Option::VendorClass(e, segs) => {
            push_u32(&mut r, *e);
            let ghost sv = segs.deep_view();
            let mut j: usize = 0;
            while j < segs.len()
                invariant
                    j <= segs@.len(),
                    sv == segs.deep_view(),
                    sv.len() == segs@.len(),
                    forall|t: int| 0 <= t < sv.len() ==> (#[trigger] sv[t]).len() <= 65535,
                    r@ == u32_bytes(*e) + segs_bytes(sv.take(j as int)),
                decreases segs@.len() - j,
            {
                proof {
                    assert(sv[j as int] == segs@[j as int]@);
                }
                push_u16(&mut r, segs[j].len() as u16);
                push_bytes(&mut r, &segs[j]);
                proof {
                    lemma_segs_snoc(sv.take(j as int), sv[j as int]);
                    assert(sv.take(j as int).push(sv[j as int]) =~= sv.take(j as int + 1));
                    assert(r@ =~= u32_bytes(*e) + segs_bytes(sv.take(j as int + 1)));
                }
                j = j + 1;
            }
            assert(sv.take(sv.len() as int) =~= sv);
        },
        Dhcp6Option::DomainNameServers(a) => {
            let ghost av = a.deep_view();
            let mut j: usize = 0;
            while j < a.len()
                invariant
                    j <= a@.len(),
                    av == a.deep_view(),
                    av.len() == a@.len(),
                    r@ == addrs16_bytes(av.take(j as int)),
                decreases a@.len() - j,
            {
                proof {
                    assert(av[j as int] == a@[j as int]@);
                }
                let mut k: usize = 0;
                let ghost pre = r@;
                while k < 16
                    invariant
                        k <= 16,
                        a@.len() == av.len(),
                        j < a@.len(),
                        a@[j as int]@.len() == 16,
                        r@ == pre + a@[j as int]@.take(k as int),
                    decreases 16 - k,
                {
                    r.push(a[j][k]);
                    assert(r@ =~= pre + a@[j as int]@.take(k as int + 1));
                    k = k + 1;
                }
                proof {
                    assert(a@[j as int]@.take(16) =~= a@[j as int]@);
                    lemma_addrs16_snoc(av.take(j as int), av[j as int]);
                    assert(av.take(j as int).push(av[j as int]) =~= av.take(j as int + 1));
                    assert(r@ =~= addrs16_bytes(av.take(j as int + 1)));
                }
                j = j + 1;
            }
            assert(av.take(av.len() as int) =~= av);
        },
        Dhcp6Option::DomainSearchList(ns) => {
            let ghost nv = ns.deep_view();
            let mut j: usize = 0;
            while j < ns.len()
                invariant
                    j <= ns@.len(),
                    nv == ns.deep_view(),
                    nv.len() == ns@.len(),
                    forall|t: int, u: int|
                        0 <= t < nv.len() && 0 <= u < nv[t].len() ==> 0 < (#[trigger] nv[t][u]).len()
                            <= 63,
                    r@ == names_bytes(nv.take(j as int)),
                decreases ns@.len() - j,
            {
                proof {
                    assert(nv[j as int] == ns@[j as int]@);
                }
                enc_name_into(&mut r, &ns[j]);
                proof {
                    lemma_names_snoc(nv.take(j as int), nv[j as int]);
                    assert(nv.take(j as int).push(nv[j as int]) =~= nv.take(j as int + 1));
                    assert(r@ =~= names_bytes(nv.take(j as int + 1)));
                }
                j = j + 1;
            }
            assert(nv.take(nv.len() as int) =~= nv);
        },
        Dhcp6Option::IaPd(pd) => {
            let body = enc_iapd(pd);
            push_bytes(&mut r, &body);
            assert(r@ =~= opt6_payload(o@));
        },
        Dhcp6Option::Unknown(_, d) => {
            push_bytes(&mut r, d);
        },
    }
    r
}

/// Append one encoded domain name: its labels, closed by a zero byte.
fn enc_name_into(out: &mut Vec<u8>, n: &DomainName)
    requires
        forall|u: int| 0 <= u < n@.len() ==> 0 < (#[trigger] n@[u]).len() <= 63,
    ensures
        final(out)@ == old(out)@ + crate::ipv6::name_bytes(n@),
{
    let ghost pre = out@;
    let mut u: usize = 0;
    while u < n.labels.len()
        invariant
            u <= n.labels@.len(),
            n@.len() == n.labels@.len(),
            forall|t: int| 0 <= t < n@.len() ==> 0 < (#[trigger] n@[t]).len() <= 63,
            out@ == pre + labels_head(n@, u as int),
        decreases n.labels@.len() - u,
    {
        proof {
            assert(n@[u as int] == n.labels@[u as int]@);
        }
        out.push(n.labels[u].len() as u8);
        push_bytes(out, &n.labels[u]);
        proof {
            lemma_labels_head_snoc(n@, u as int);
            assert(out@ =~= pre + labels_head(n@, u as int + 1));
        }
        u = u + 1;
    }
    out.push(0u8);
    proof {
        lemma_name_bytes_split(n@, n@.len() as int);
        assert(n@.skip(n@.len() as int) =~= Seq::<Seq<u8>>::empty());
        assert(crate::ipv6::name_bytes(Seq::<Seq<u8>>::empty()) == seq![0u8]);
        assert(out@ =~= pre + crate::ipv6::name_bytes(n@));
    }
}

/// The first `k` labels of a name, encoded without the terminator.
pub open spec fn labels_head(ls: Seq<Seq<u8>>, k: int) -> Seq<u8>
    decreases k,
{
    if k <= 0 {
        Seq::empty()
    } else {
        labels_head(ls, k - 1) + seq![ls[k - 1].len() as u8] + ls[k - 1]
    }
}

/// One more label extends the encoded head by its framed bytes.
proof fn lemma_labels_head_snoc(ls: Seq<Seq<u8>>, k: int)
    requires
        0 <= k,
    ensures
        labels_head(ls, k + 1) == labels_head(ls, k) + seq![ls[k].len() as u8] + ls[k],
{
}

/// Peeling labels from the front: the encoding of a name is the encoded head
/// up to `k` followed by the encoding of the remaining labels.
proof fn lemma_name_bytes_split(ls: Seq<Seq<u8>>, k: int)
    requires
        0 <= k <= ls.len(),
    ensures
        labels_head(ls, k) + crate::ipv6::name_bytes(ls.skip(k)) == crate::ipv6::name_bytes(ls),
    decreases k,
{
    if k == 0 {
        assert(ls.skip(0) =~= ls);
        assert(labels_head(ls, 0) + crate::ipv6::name_bytes(ls) =~= crate::ipv6::name_bytes(ls));
    } else {
        lemma_name_bytes_split(ls, k - 1);
        assert(ls.skip(k - 1)[0] == ls[k - 1]);
        assert(ls.skip(k - 1).skip(1) =~= ls.skip(k));
        assert(crate::ipv6::name_bytes(ls.skip(k - 1)) == seq![ls[k - 1].len() as u8] + ls[k - 1]
            + crate::ipv6::name_bytes(ls.skip(k)));
        lemma_labels_head_snoc(ls, k - 1);
        assert(labels_head(ls, k) + crate::ipv6::name_bytes(ls.skip(k)) =~= labels_head(ls, k - 1)
            + crate::ipv6::name_bytes(ls.skip(k - 1)));
    }
}

/// Encode a message to its complete wire form.
pub fn encode(m: &Dhcp6Message) -> (r: Vec<u8>)
    requires
        wf_msg6(m@),
    ensures
        r@ == spec_encode6(m@),
{
    let mut out: Vec<u8> = Vec::new();
    out.push(msg_type6_code(m.msg_type));
    let x = m.xid;
    proof {
        assert((x >> 16u32) & 0xffu32 <= 0xff && (x >> 8u32) & 0xffu32 <= 0xff && x & 0xffu32
            <= 0xff) by (bit_vector);
    }
    out.push(((x >> 16u32) & 0xffu32) as u8);
    out.push(((x >> 8u32) & 0xffu32) as u8);
    out.push((x & 0xffu32) as u8);
    assert(out@ =~= seq![spec_msg_type6_code(m@.msg_type)] + xid_bytes(m@.xid));
    let ghost hdr = out@;
    let mut j: usize = 0;
    while j < m.options.len()
        invariant
            j <= m.options@.len(),
            wf_msg6(m@),
            m@.options.len() == m.options@.len(),
            out@ == hdr + enc_opts6(m@.options.take(j as int)),
            hdr == seq![spec_msg_type6_code(m@.msg_type)] + xid_bytes(m@.xid),
        decreases m.options@.len() - j,
    {
        proof {
            assert(m@.options[j as int] == m.options[j as int]@);
        }
        let payload = payload6(&m.options[j]);
        push_u16(&mut out, opt_code6(&m.options[j]));
        push_u16(&mut out, payload.len() as u16);
        push_bytes(&mut out, &payload);
        proof {
            lemma_enc_opts6_snoc(m@.options.take(j as int), m@.options[j as int]);
            assert(m@.options.take(j as int).push(m@.options[j as int]) =~= m@.options.take(
                j as int + 1,
            ));
            assert(out@ =~= hdr + enc_opts6(m@.options.take(j as int + 1)));
        }
        j = j + 1;
    }
    assert(m@.options.take(m.options@.len() as int) =~= m@.options);
    assert(out@ =~= spec_encode6(m@));
    out
}

/// Wire code of a typed option.
fn opt_code6(o: &Dhcp6Option) -> (r: u16)
    ensures
        r == opt6_code(o@),
{
    match o {
        Dhcp6Option::ClientId(_) => 1,
        Dhcp6Option::ServerId(_) => 2,
        Dhcp6Option::Oro(_) => 6,
        Dhcp6Option::ElapsedTime(_) => 8,
        Dhcp6Option::StatusCode(_, _) => 13,
        Dhcp6Option::VendorClass(_, _) => 16,
        Dhcp6Option::DomainNameServers(_) => 23,
        Dhcp6Option::DomainSearchList(_) => 24,
        Dhcp6Option::IaPd(_) => 25,
        Dhcp6Option::Unknown(c, _) => *c,
    }
}


// ---------------------------------------------------------------------------
// Executable decoding.
// ---------------------------------------------------------------------------

/// Parse one option nested in an IA-Prefix.
fn parse_prefopt_x(code: u16, d: Vec<u8>) -> (r: PrefixOpt)
    ensures
        r@ == parse_prefopt(code, d@),
{
    if code == 13 && d.len() >= 2 {
        let st = read_u16(&d, 0);
        let m = copy_range(&d, 2, d.len());
        assert(m@ =~= d@.skip(2));
        PrefixOpt::Status(st, m)
    } else {
        PrefixOpt::Other(code, d)
    }
}

/// Parse one IA-Prefix payload.
fn parse_iaprefix_x(d: &Vec<u8>) -> (r: Option<IaPrefix>)
    ensures
        (match (r, parse_iaprefix(d@)) {
            (Some(p), Some(pv)) => p@ == pv,
            (None, None) => true,
            _ => false,
        }),
{
    let n = d.len();
    if n < 25 {
        return None;
    }
    let mut opts: Vec<PrefixOpt> = Vec::new();
    assert(opts.deep_view() =~= Seq::<PrefixOptV>::empty());
    let mut i: usize = 25;
    while i < n
        invariant
            25 <= i <= n,
            n == d@.len(),
            dec_prefopts(d@, i as int, opts.deep_view()) == dec_prefopts(d@, 25, Seq::empty()),
        decreases n - i,
    {
        if n - i < 4 {
            proof {
                assert(dec_prefopts(d@, i as int, opts.deep_view()) == None::<Seq<PrefixOptV>>);
            }
            return None;
        }
        let code = read_u16(d, i);
        let l = read_u16(d, i + 2) as usize;
        if l > n - (i + 4) {
            proof {
                assert(dec_prefopts(d@, i as int, opts.deep_view()) == None::<Seq<PrefixOptV>>);
            }
            return None;
        }
        let sub = copy_range(d, i + 4, i + 4 + l);
        let ghost pre = opts.deep_view();
        let o = parse_prefopt_x(code, sub);
        opts.push(o);
        proof {
            assert(opts.deep_view() =~~= pre.push(parse_prefopt(code, d@.subrange(i as int + 4, i
                as int + 4 + l as int))));
            assert(dec_prefopts(d@, i as int, pre) == dec_prefopts(
                d@,
                i as int + 4 + l as int,
                opts.deep_view(),
            ));
        }
        i = i + 4 + l;
    }
    let p = IaPrefix {
        preferred_lifetime: read_u32(d, 0),
        valid_lifetime: read_u32(d, 4),
        prefix_len: d[8],
        prefix_ip: read16(d, 9),
        opts,
    };
    proof {
        assert(parse_iaprefix(d@) is Some);
        assert(p@ =~~= parse_iaprefix(d@)->Some_0);
    }
    Some(p)
}

/// Parse one option nested in an IA-PD.
fn parse_pdopt_x(code: u16, d: Vec<u8>) -> (r: Option<PdOpt>)
    ensures
        (match (r, parse_pdopt(code, d@)) {
            (Some(o), Some(ov)) => o@ == ov,
            (None, None) => true,
            _ => false,
        }),
{
    if code == 26 {
        match parse_iaprefix_x(&d) {
            Some(p) => Some(PdOpt::Prefix(p)),
            None => None,
        }
    } else if code == 13 && d.len() >= 2 {
        let st = read_u16(&d, 0);
        let m = copy_range(&d, 2, d.len());
        assert(m@ =~= d@.skip(2));
        Some(PdOpt::Status(st, m))
    } else {
        Some(PdOpt::Other(code, d))
    }
}

/// Parse one IA-PD payload.
fn parse_iapd_x(d: &Vec<u8>) -> (r: Option<IaPd>)
    ensures
        (match (r, parse_iapd(d@)) {
            (Some(pd), Some(pv)) => pd@ == pv,
            (None, None) => true,
            _ => false,
        }),
{
    let n = d.len();
    if n < 12 {
        return None;
    }
    let mut opts: Vec<PdOpt> = Vec::new();
    assert(opts.deep_view() =~= Seq::<PdOptV>::empty());
    let mut i: usize = 12;
    while i < n
        invariant
            12 <= i <= n,
            n == d@.len(),
            dec_pdopts(d@, i as int, opts.deep_view()) == dec_pdopts(d@, 12, Seq::empty()),
        decreases n - i,
    {
        if n - i < 4 {
            proof {
                assert(dec_pdopts(d@, i as int, opts.deep_view()) == None::<Seq<PdOptV>>);
            }
            return None;
        }
        let code = read_u16(d, i);
        let l = read_u16(d, i + 2) as usize;
        if l > n - (i + 4) {
            proof {
                assert(dec_pdopts(d@, i as int, opts.deep_view()) == None::<Seq<PdOptV>>);
            }
            return None;
        }
        let sub = copy_range(d, i + 4, i + 4 + l);
        let ghost pre = opts.deep_view();
        match parse_pdopt_x(code, sub) {
            Some(o) => {
                opts.push(o);
                proof {
                    assert(parse_pdopt(code, d@.subrange(i as int + 4, i as int + 4 + l as int))
                        is Some);
                    assert(opts.deep_view() =~~= pre.push(
                        parse_pdopt(code, d@.subrange(i as int + 4, i as int + 4 + l as int))
                            ->Some_0,
                    ));
                    assert(dec_pdopts(d@, i as int, pre) == dec_pdopts(
                        d@,
                        i as int + 4 + l as int,
                        opts.deep_view(),
                    ));
                }
            },
            None => {
                proof {
                    assert(dec_pdopts(d@, i as int, pre) == None::<Seq<PdOptV>>);
                }
                return None;
            },
        }
        i = i + 4 + l;
    }
    let pd = IaPd { id: read_u32(d, 0), t1: read_u32(d, 4), t2: read_u32(d, 8), opts };
    proof {
        assert(parse_iapd(d@) is Some);
        assert(pd@ =~~= parse_iapd(d@)->Some_0);
    }
    Some(pd)
}

/// Parse one name's labels from `i` on.
fn parse_name_at(d: &Vec<u8>, i: usize) -> (r: Option<(Vec<Vec<u8>>, usize)>)
    ensures
        (match (r, name_labels(d@, i as int)) {
            (Some((ls, nx)), Some((lsv, nxv))) => ls.deep_view() == lsv && nx as int == nxv && i
                < nx <= d@.len(),
            (None, None) => true,
            _ => false,
        }),
{
    let n = d.len();
    let mut labs: Vec<Vec<u8>> = Vec::new();
    assert(labs.deep_view() =~= Seq::<Seq<u8>>::empty());
    let mut p: usize = i;
    let ghost st = i as int;
    while p < n
        invariant
            i <= p,
            n == d@.len(),
            (match name_labels(d@, p as int) {
                Some((ls, nx)) => name_labels(d@, st) == Some((labs.deep_view() + ls, nx)),
                None => name_labels(d@, st) is None,
            }),
            st == i as int,
        decreases n - p,
    {
        let ll = d[p] as usize;
        if ll == 0 {
            proof {
                assert(name_labels(d@, p as int) == Some((Seq::<Seq<u8>>::empty(), p as int + 1)));
                assert(labs.deep_view() + Seq::<Seq<u8>>::empty() =~= labs.deep_view());
            }
            return Some((labs, p + 1));
        }
        if ll > n - (p + 1) {
            proof {
                assert(name_labels(d@, p as int) is None);
            }
            return None;
        }
        let lab = copy_range(d, p + 1, p + 1 + ll);
        let ghost pre = labs.deep_view();
        labs.push(lab);
        proof {
            assert(labs.deep_view() =~~= pre.push(d@.subrange(p as int + 1, p as int + 1
                + ll as int)));
            let nxt = name_labels(d@, p as int + 1 + ll as int);
            assert(name_labels(d@, p as int) == (match nxt {
                Some((ls2, nx2)) => Some(
                    (seq![d@.subrange(p as int + 1, p as int + 1 + ll as int)] + ls2, nx2),
                ),
                None => None::<(Seq<Seq<u8>>, int)>,
            }));
            match nxt {
                Some((ls2, nx2)) => {
                    assert(pre + (seq![d@.subrange(p as int + 1, p as int + 1 + ll as int)] + ls2)
                        =~= labs.deep_view() + ls2);
                },
                None => {},
            }
        }
        p = p + 1 + ll;
    }
    proof {
        assert(name_labels(d@, p as int) is None);
    }
    None
}

/// Parse one top-level option payload into a typed option.
fn parse_opt(code: u16, d: Vec<u8>) -> (r: Option<Dhcp6Option>)
    ensures
        (match (r, parse_opt6(code, d@)) {
            (Some(o), Some(ov)) => o@ == ov,
            (None, None) => true,
            _ => false,
        }),
{
    let n = d.len();
    if code == 1 {
        Some(Dhcp6Option::ClientId(d))
    } else if code == 2 {
        Some(Dhcp6Option::ServerId(d))
    } else if code == 6 {
        if n % 2 == 0 {
            let cnt = n / 2;
            let mut cs: Vec<u16> = Vec::new();
            let mut j: usize = 0;
            while j < cnt
                invariant
                    j <= cnt,
                    n == d@.len(),
                    2 * cnt == d@.len(),
                    cs@.len() == j,
                    forall|t: int| 0 <= t < j ==> cs@[t] == be16_at(d@, 2 * t),
                decreases cnt - j,
            {
                cs.push(read_u16(&d, 2 * j));
                j = j + 1;
            }
            assert(cs@ =~= parse_oro(d@));
            Some(Dhcp6Option::Oro(cs))
        } else {
            None
        }
    } else if code == 8 {
        if n == 2 {
            Some(Dhcp6Option::ElapsedTime(read_u16(&d, 0)))
        } else {
            None
        }
    } else if code == 13 {
        if n >= 2 {
            let st = read_u16(&d, 0);
            let m = copy_range(&d, 2, n);
            assert(m@ =~= d@.skip(2));
            Some(Dhcp6Option::StatusCode(st, m))
        } else {
            None
        }
    } else if code == 16 {
        if n >= 4 {
            let ent = read_u32(&d, 0);
            let mut segs: Vec<Vec<u8>> = Vec::new();
            assert(segs.deep_view() =~= Seq::<Seq<u8>>::empty());
            let mut i: usize = 4;
            while i < n
                invariant
                    4 <= i <= n,
                    n == d@.len(),
                    code == 16,
                    dec_segs(d@, i as int, segs.deep_view()) == dec_segs(d@, 4, Seq::empty()),
                decreases n - i,
            {
                if n - i < 2 {
                    proof {
                        assert(dec_segs(d@, i as int, segs.deep_view()) == None::<Seq<Seq<u8>>>);
                    }
                    return None;
                }
                let l = read_u16(&d, i) as usize;
                if l > n - (i + 2) {
                    proof {
                        assert(dec_segs(d@, i as int, segs.deep_view()) == None::<Seq<Seq<u8>>>);
                    }
                    return None;
                }
                let sub = copy_range(&d, i + 2, i + 2 + l);
                let ghost pre = segs.deep_view();
                segs.push(sub);
                proof {
                    assert(segs.deep_view() =~~= pre.push(d@.subrange(i as int + 2, i as int + 2
                        + l as int)));
                    assert(dec_segs(d@, i as int, pre) == dec_segs(
                        d@,
                        i as int + 2 + l as int,
                        segs.deep_view(),
                    ));
                }
                i = i + 2 + l;
            }
            proof {
                assert(parse_opt6(code, d@) is Some);
            }
            Some(Dhcp6Option::VendorClass(ent, segs))
        } else {
            None
        }
    } else if code == 23 {
        if n % 16 == 0 {
            let cnt = n / 16;
            let mut a: Vec<[u8; 16]> = Vec::new();
            let mut j: usize = 0;
            while j < cnt
                invariant
                    j <= cnt,
                    n == d@.len(),
                    16 * cnt == d@.len(),
                    a.deep_view().len() == j,
                    forall|t: int|
                        0 <= t < j ==> a.deep_view()[t] == d@.subrange(16 * t, 16 * t + 16),
                decreases cnt - j,
            {
                let ghost pre = a.deep_view();
                let g = read16(&d, 16 * j);
                a.push(g);
                proof {
                    assert(a.deep_view() =~~= pre.push(g@));
                }
                j = j + 1;
            }
            assert(a.deep_view() =~~= groups16(d@));
            Some(Dhcp6Option::DomainNameServers(a))
        } else {
            None
        }
    } else if code == 24 {
        let mut ns: Vec<DomainName> = Vec::new();
        assert(ns.deep_view() =~= Seq::<Seq<Seq<u8>>>::empty());
        let mut i: usize = 0;
        while i < n
            invariant
                i <= n,
                n == d@.len(),
                code == 24,
                dec_names(d@, i as int, ns.deep_view()) == dec_names(d@, 0, Seq::empty()),
            decreases n - i,
        {
            match parse_name_at(&d, i) {
                Some((labs, nx)) => {
                    let ghost pre = ns.deep_view();
                    let name = DomainName { labels: labs };
                    let ghost lv = name@;
                    ns.push(name);
                    proof {
                        assert(ns.deep_view() =~~= pre.push(lv));
                        assert(dec_names(d@, i as int, pre) == dec_names(
                            d@,
                            nx as int,
                            ns.deep_view(),
                        ));
                    }
                    i = nx;
                },
                None => {
                    proof {
                        assert(dec_names(d@, i as int, ns.deep_view()) == None::<Seq<Seq<Seq<
                            u8,
                        >>>>);
                    }
                    return None;
                },
            }
        }
        proof {
            assert(parse_opt6(code, d@) is Some);
        }
        Some(Dhcp6Option::DomainSearchList(ns))
    } else if code == 25 {
        match parse_iapd_x(&d) {
            Some(pd) => Some(Dhcp6Option::IaPd(pd)),
            None => None,
        }
    } else {
        Some(Dhcp6Option::Unknown(code, d))
    }
}

/// Decode exactly one message from a datagram. Bytes beyond the last
/// complete option frame are ignored; only a datagram shorter than a
/// message header is malformed.
pub fn decode(b: &Vec<u8>) -> (r: Result<Dhcp6Message, Dhcp6Error>)
    ensures
        (match (r, spec_decode6(b@)) {
            (Ok(m), Ok(mv)) => m@ == mv,
            (Err(e1), Err(e2)) => e1 == e2,
            _ => false,
        }),
{
    let n = b.len();
    if n < 4 {
        return Err(Dhcp6Error::Truncated);
    }
    let mut opts: Vec<Dhcp6Option> = Vec::new();
    assert(opts.deep_view() =~= Seq::<Opt6>::empty());
    let mut i: usize = 4;
    while i < n
        invariant
            4 <= i <= n,
            n == b@.len(),
            dec_opts6(b@, i as int, opts.deep_view()) == dec_opts6(b@, 4, Seq::empty()),
        decreases n - i,
    {
        if n - i < 4 {
            proof {
                assert(dec_opts6(b@, i as int, opts.deep_view()) == opts.deep_view());
                assert(dec_opts6(b@, n as int, opts.deep_view()) == opts.deep_view());
            }
            i = n;
            continue ;
        }
        let code = read_u16(b, i);
        let l = read_u16(b, i + 2) as usize;
        if l > n - (i + 4) {
            proof {
                assert(dec_opts6(b@, i as int, opts.deep_view()) == opts.deep_view());
                assert(dec_opts6(b@, n as int, opts.deep_view()) == opts.deep_view());
            }
            i = n;
            continue ;
        }
        let data = copy_range(b, i + 4, i + 4 + l);
        let ghost pre = opts.deep_view();
        match parse_opt(code, data) {
            Some(o) => {
                opts.push(o);
                assert(opts.deep_view() =~~= pre.push(o@));
            },
            None => {},
        }
        proof {
            assert(dec_opts6(b@, i as int, pre) == dec_opts6(
                b@,
                i as int + 4 + l as int,
                opts.deep_view(),
            ));
        }
        i = i + 4 + l;
    }
    let m = Dhcp6Message {
        msg_type: msg_type6_of(b[0]),
        xid: (b[1] as u32) * 0x10000 + (b[2] as u32) * 0x100 + (b[3] as u32),
        options: opts,
    };
    proof {
        assert(spec_decode6(b@) is Ok);
        assert(m@ =~~= spec_decode6(b@)->Ok_0);
    }
    Ok(m)
}


// ---------------------------------------------------------------------------
// The round trip: decoding an encoded message gives it back, for options
// whose payload parses back to the option itself.
// ---------------------------------------------------------------------------

/// What the round trip needs of one option: the payload fits the two-byte
/// length field and parses back to the option itself.
pub open spec fn rt_opt6(o: Opt6) -> bool {
    opt6_payload(o).len() <= 65535 && parse_opt6(opt6_code(o), opt6_payload(o)) == Some(o)
}

/// Walking a region that holds the encoding of such options yields exactly
/// those options.
proof fn lemma_rt_opts6(b: Seq<u8>, i: int, opts: Seq<Opt6>, acc: Seq<Opt6>)
    requires
        0 <= i <= b.len(),
        b.subrange(i, b.len() as int) == enc_opts6(opts),
        forall|t: int| 0 <= t < opts.len() ==> rt_opt6(#[trigger] opts[t]),
    ensures
        dec_opts6(b, i, acc) == acc + opts,
    decreases opts.len(),
{
    let s = b.subrange(i, b.len() as int);
    if opts.len() == 0 {
        assert(enc_opts6(opts).len() == 0);
        assert(i == b.len());
        assert(acc + opts =~= acc);
    } else {
        let o = opts[0];
        assert(rt_opt6(o));
        let e = enc_opt6(o);
        let pl = opt6_payload(o);
        let code = opt6_code(o);
        assert(e.len() == 4 + pl.len());
        assert(enc_opts6(opts) == e + enc_opts6(opts.skip(1)));
        assert(s == e + enc_opts6(opts.skip(1)));
        assert(s.len() == b.len() - i);
        assert(i + 4 + pl.len() <= b.len());
        assert(b[i] == s[0] && s[0] == e[0] && e[0] == u16_bytes(code)[0]);
        assert(b[i + 1] == s[1] && s[1] == e[1] && e[1] == u16_bytes(code)[1]);
        lemma_be16_of_u16_bytes(code);
        assert(be16_at(b, i) == code);
        assert(b[i + 2] == s[2] && s[2] == e[2] && e[2] == u16_bytes(pl.len() as u16)[0]);
        assert(b[i + 3] == s[3] && s[3] == e[3] && e[3] == u16_bytes(pl.len() as u16)[1]);
        lemma_be16_of_u16_bytes(pl.len() as u16);
        assert(be16_at(b, i + 2) == pl.len() as u16);
        assert(be16_at(b, i + 2) as int == pl.len());
        assert forall|k: int| 0 <= k < pl.len() implies b.subrange(
            i + 4,
            i + 4 + pl.len() as int,
        )[k] == pl[k] by {
            assert(b.subrange(i + 4, i + 4 + pl.len() as int)[k] == b[i + 4 + k]);
            assert(b[i + 4 + k] == s[4 + k]);
            assert(s[4 + k] == e[4 + k]);
            assert(e[4 + k] == pl[k]);
        }
        assert(b.subrange(i + 4, i + 4 + pl.len() as int) =~= pl);
        assert(parse_opt6(be16_at(b, i), b.subrange(i + 4, i + 4 + pl.len() as int)) == Some(o));
        assert(dec_opts6(b, i, acc) == dec_opts6(b, i + 4 + pl.len(), acc.push(o)));
        assert forall|k: int| 0 <= k < b.len() - (i + 4 + pl.len()) implies b.subrange(
            i + 4 + pl.len() as int,
            b.len() as int,
        )[k] == enc_opts6(opts.skip(1))[k] by {
            assert(b.subrange(i + 4 + pl.len() as int, b.len() as int)[k] == b[i + 4 + pl.len()
                + k]);
            assert(b[i + 4 + pl.len() + k] == s[4 + pl.len() + k]);
            assert(s[4 + pl.len() + k] == enc_opts6(opts.skip(1))[k]);
        }
        assert(b.subrange(i + 4 + pl.len() as int, b.len() as int) =~= enc_opts6(opts.skip(1)));
        lemma_rt_opts6(b, i + 4 + pl.len() as int, opts.skip(1), acc.push(o));
        assert(acc.push(o) + opts.skip(1) =~= acc + opts);
    }
}

/// Reassembling the three transaction-id bytes gives the id back.
proof fn lemma_xid_roundtrip(x: u32)
    requires
        x < 0x1000000,
    ensures
        xid_of(xid_bytes(x)[0], xid_bytes(x)[1], xid_bytes(x)[2]) == x,
{
    assert(x < 0x1000000 ==> ((((x >> 16u32) & 0xffu32) as u8) as u32) * 0x10000 + ((((x
        >> 8u32) & 0xffu32) as u8) as u32) * 0x100 + (((x & 0xffu32) as u8) as u32) == x)
        by (bit_vector);
}

/// The round-trip law: a message whose transaction id fits three bytes,
/// whose type has a canonical code, and whose every option parses back to
/// itself decodes from its own encoding.
pub proof fn lemma_encode6_decode6(m: Msg6)
    requires
        m.xid < 0x1000000,
        spec_msg_type6_of(spec_msg_type6_code(m.msg_type)) == m.msg_type,
        forall|t: int| 0 <= t < m.options.len() ==> rt_opt6(#[trigger] m.options[t]),
    ensures
        spec_decode6(spec_encode6(m)) == Ok::<Msg6, Dhcp6Error>(m),
{
    let b = spec_encode6(m);
    assert(b.len() == 4 + enc_opts6(m.options).len());
    assert(b[0] == spec_msg_type6_code(m.msg_type));
    assert(b[1] == xid_bytes(m.xid)[0] && b[2] == xid_bytes(m.xid)[1] && b[3] == xid_bytes(
        m.xid,
    )[2]);
    lemma_xid_roundtrip(m.xid);
    assert(b.subrange(4, b.len() as int) =~= enc_opts6(m.options));
    lemma_rt_opts6(b, 4, m.options, Seq::empty());
    assert(Seq::<Opt6>::empty() + m.options =~= m.options);
    let dm = spec_decode6(b)->Ok_0;
    assert(dm =~= m);
}

} // verus!
