//! DHCPv6 response interpretation: folding a decoded message's option set
//! into a flat lease response. The echoed client identifier must equal this
//! client's DUID, and a non-success status aborts the whole receive; the
//! prefix delegation comes from the first IA-Prefix found in an IA-PD
//! container, and is absent when no container holds one.

use vstd::prelude::*;

use crate::ipv6::{
    groups16, spec_decode6, Dhcp6Error, Dhcp6Message, Dhcp6Option, DomainName, IaPdV, IaPrefixV,
    MessageType, Msg6, Opt6, PdOpt, PdOptV, PdPrefix, PdPrefixV, STATUS_SUCCESS,
};
use crate::ipv6_build::duid_bytes;
use crate::ipv6_codec::decode;
use crate::wire::{bytes_eq, copy_range, dot_labels, join_labels, read16};

verus! {

/// Everything the interpreter extracted from one received message.
#[derive(Clone, Debug)]
pub struct Dhcp6Response {
    pub client_id: Vec<u8>,
    pub server_id: Vec<u8>,
    pub pd: Option<PdPrefix>,
    pub nameserver_addrs: Vec<[u8; 16]>,
    pub domain_search_list: Vec<Vec<u8>>,
    pub sip_server_addrs: Vec<[u8; 16]>,
    pub sntp_server_addrs: Vec<[u8; 16]>,
}

/// Ghost view of `Dhcp6Response`, shaped as the interpretation fold's
/// accumulator: the identifiers are present in a returned response.
#[verifier::ext_equal]
pub struct Lease6 {
    pub client_id: Option<Seq<u8>>,
    pub server_id: Option<Seq<u8>>,
    pub pd: Option<PdPrefixV>,
    pub nameserver_addrs: Seq<Seq<u8>>,
    pub domain_search_list: Seq<Seq<u8>>,
    pub sip_server_addrs: Seq<Seq<u8>>,
    pub sntp_server_addrs: Seq<Seq<u8>>,
}

impl View for Dhcp6Response {
    type V = Lease6;

    open spec fn view(&self) -> Lease6 {
        Lease6 {
            client_id: Some(self.client_id@),
            server_id: Some(self.server_id@),
            pd: self.pd.deep_view(),
            nameserver_addrs: self.nameserver_addrs.deep_view(),
            domain_search_list: self.domain_search_list.deep_view(),
            sip_server_addrs: self.sip_server_addrs.deep_view(),
            sntp_server_addrs: self.sntp_server_addrs.deep_view(),
        }
    }
}

/// The empty lease every interpretation starts from.
pub open spec fn lease6_init() -> Lease6 {
    Lease6 {
        client_id: None,
        server_id: None,
        pd: None,
        nameserver_addrs: Seq::empty(),
        domain_search_list: Seq::empty(),
        sip_server_addrs: Seq::empty(),
        sntp_server_addrs: Seq::empty(),
    }
}

/// The first IA-Prefix among an IA-PD container's nested options.
pub open spec fn first_prefix(opts: Seq<PdOptV>) -> Option<IaPrefixV>
    decreases opts.len(),
{
    if opts.len() == 0 {
        None
    } else {
        match opts[0] {
            PdOptV::Prefix(p) => Some(p),
            _ => first_prefix(opts.skip(1)),
        }
    }
}

/// The delegated prefix a container yields: its first IA-Prefix, with the
/// container's renewal timers.
pub open spec fn pd_of_container(pd: IaPdV) -> Option<PdPrefixV> {
    match first_prefix(pd.opts) {
        Some(p) => Some(
            PdPrefixV {
                prefix: p.prefix_ip,
                prefix_len: p.prefix_len,
                preferred_lifetime: p.preferred_lifetime,
                valid_lifetime: p.valid_lifetime,
                t1: pd.t1,
                t2: pd.t2,
            },
        ),
        None => None,
    }
}

/// What one option does to the lease. The echoed client identifier must be
/// this client's DUID; a non-success status fails the receive; address lists
/// accumulate; the first container holding an IA-Prefix supplies the
/// delegation.
pub open spec fn step6(o: Opt6, duid: Seq<u8>, acc: Lease6) -> Result<Lease6, Dhcp6Error> {
    match o {
        Opt6::ClientId(id) => if id == duid {
            Ok(Lease6 { client_id: Some(id), ..acc })
        } else {
            Err(Dhcp6Error::ClientIdMismatch)
        },
        Opt6::ServerId(id) => Ok(Lease6 { server_id: Some(id), ..acc }),
        Opt6::StatusCode(st, _) => if st == STATUS_SUCCESS {
            Ok(acc)
        } else {
            Err(Dhcp6Error::ServerStatus(st))
        },
        Opt6::DomainNameServers(a) => Ok(
            Lease6 { nameserver_addrs: acc.nameserver_addrs + a, ..acc },
        ),
        Opt6::DomainSearchList(ns) => Ok(
            Lease6 {
                domain_search_list: acc.domain_search_list + ns.map_values(
                    |ls: Seq<Seq<u8>>| join_labels(ls),
                ),
                ..acc
            },
        ),
        Opt6::IaPd(pd) => if acc.pd is None {
            Ok(Lease6 { pd: pd_of_container(pd), ..acc })
        } else {
            Ok(acc)
        },
        Opt6::Unknown(c, d) => if c == 22 {
            Ok(Lease6 { sip_server_addrs: acc.sip_server_addrs + groups16(d), ..acc })
        } else if c == 31 {
            Ok(Lease6 { sntp_server_addrs: acc.sntp_server_addrs + groups16(d), ..acc })
        } else {
            Ok(acc)
        },
        _ => Ok(acc),
    }
}

/// Fold the option list over the lease, stopping at the first failure.
pub open spec fn fold6(opts: Seq<Opt6>, duid: Seq<u8>, acc: Lease6) -> Result<Lease6, Dhcp6Error>
    decreases opts.len(),
{
    if opts.len() == 0 {
        Ok(acc)
    } else {
        match step6(opts[0], duid, acc) {
            Ok(a2) => fold6(opts.skip(1), duid, a2),
            Err(e) => Err(e),
        }
    }
}

/// Interpret a decoded message: it must carry the expected message type and
/// echo both identifiers; every check of the fold must pass.
pub open spec fn spec_interpret6(m: Msg6, exp: MessageType, duid: Seq<u8>) -> Result<
    Lease6,
    Dhcp6Error,
> {
    if m.msg_type != exp {
        Err(Dhcp6Error::WrongMessageType)
    } else {
        match fold6(m.options, duid, lease6_init()) {
            Ok(acc) => if acc.client_id is None {
                Err(Dhcp6Error::MissingClientId)
            } else if acc.server_id is None {
                Err(Dhcp6Error::MissingServerId)
            } else {
                Ok(acc)
            },
            Err(e) => Err(e),
        }
    }
}

/// Interpretation of a raw datagram: decode, then interpret.
pub open spec fn spec_recv6(b: Seq<u8>, exp: MessageType, duid: Seq<u8>) -> Result<
    Lease6,
    Dhcp6Error,
> {
    match spec_decode6(b) {
        Ok(m) => spec_interpret6(m, exp, duid),
        Err(e) => Err(e),
    }
}

// ---------------------------------------------------------------------------
// Laws the interpreter obeys.
// ---------------------------------------------------------------------------

/// When no IA-PD container of the message holds an IA-Prefix, the lease's
/// delegation is absent; callers soliciting a prefix treat that as "no PD
/// offered".
pub proof fn lemma_no_prefix_no_pd(opts: Seq<Opt6>, duid: Seq<u8>, acc: Lease6)
    requires
        acc.pd is None,
        forall|i: int| 0 <= i < opts.len() ==> (match #[trigger] opts[i] {
            Opt6::IaPd(pd) => first_prefix(pd.opts) is None,
            _ => true,
        }),
    ensures
        (match fold6(opts, duid, acc) {
            Ok(l) => l.pd is None,
            Err(_) => true,
        }),
    decreases opts.len(),
{
    if opts.len() > 0 {
        match step6(opts[0], duid, acc) {
            Ok(a2) => {
                assert(a2.pd is None);
                lemma_no_prefix_no_pd(opts.skip(1), duid, a2);
            },
            Err(_) => {},
        }
    }
}

/// A receive whose option set carries a client identifier other than this
/// client's DUID fails, whatever else the message carries.
pub proof fn lemma_client_mismatch_fails(opts: Seq<Opt6>, duid: Seq<u8>, acc: Lease6, w: int)
    requires
        0 <= w < opts.len(),
        opts[w] matches Opt6::ClientId(id) && id != duid,
    ensures
        fold6(opts, duid, acc) is Err,
    decreases opts.len(),
{
    match step6(opts[0], duid, acc) {
        Ok(a2) => {
            assert(w != 0);
            assert(opts.skip(1)[w - 1] == opts[w]);
            lemma_client_mismatch_fails(opts.skip(1), duid, a2, w - 1);
        },
        Err(_) => {},
    }
}

// ---------------------------------------------------------------------------
// Executable helpers.
// ---------------------------------------------------------------------------

/// Copy a byte vector.
fn clone_bytes(v: &Vec<u8>) -> (r: Vec<u8>)
    ensures
        r@ == v@,
{
    let r = copy_range(v, 0, v.len());
    assert(v@.subrange(0, v@.len() as int) =~= v@);
    r
}

/// Append the complete 16-byte groups of a payload.
fn extend_groups16(d: &Vec<u8>, out: &mut Vec<[u8; 16]>)
    ensures
        final(out).deep_view() == old(out).deep_view() + groups16(d@),
{
    let n = d.len();
    let cnt = n / 16;
    let mut j: usize = 0;
    while j < cnt
        invariant
            j <= cnt,
            n == d@.len(),
            cnt == n / 16,
            out.deep_view() == old(out).deep_view() + groups16(d@).take(j as int),
        decreases cnt - j,
    {
        let ghost pre = out.deep_view();
        let g = read16(d, 16 * j);
        out.push(g);
        proof {
            assert(out.deep_view() =~~= pre.push(g@));
            assert(out.deep_view() =~~= old(out).deep_view() + groups16(d@).take(j as int + 1));
        }
        j = j + 1;
    }
    assert(groups16(d@).take(cnt as int) =~= groups16(d@));
}

/// Join one name's labels with dots.
fn join_name(n: &DomainName) -> (r: Vec<u8>)
    ensures
        r@ == join_labels(n@),
{
    let cnt = n.labels.len();
    if cnt == 0 {
        let r: Vec<u8> = Vec::new();
        assert(r@ =~= join_labels(n@));
        return r;
    }
    let mut r: Vec<u8> = Vec::new();
    let first = &n.labels[0];
    let mut k: usize = 0;
    while k < first.len()
        invariant
            k <= first@.len(),
            r@ == first@.take(k as int),
        decreases first@.len() - k,
    {
        r.push(first[k]);
        assert(r@ =~= first@.take(k as int + 1));
        k = k + 1;
    }
    assert(first@.take(first@.len() as int) =~= first@);
    assert(n@[0] == n.labels@[0]@);
    let mut t: usize = 1;
    while t < cnt
        invariant
            1 <= t <= cnt,
            cnt == n.labels@.len(),
            n@.len() == n.labels@.len(),
            join_labels(n@) == r@ + dot_labels(n@, t as int),
        decreases cnt - t,
    {
        let ghost pre = r@;
        r.push(46u8);
        let lab = &n.labels[t];
        let mut k2: usize = 0;
        while k2 < lab.len()
            invariant
                k2 <= lab@.len(),
                r@ == pre + seq![46u8] + lab@.take(k2 as int),
            decreases lab@.len() - k2,
        {
            r.push(lab[k2]);
            assert(r@ =~= pre + seq![46u8] + lab@.take(k2 as int + 1));
            k2 = k2 + 1;
        }
        proof {
            assert(lab@.take(lab@.len() as int) =~= lab@);
            assert(n@[t as int] == n.labels@[t as int]@);
            assert(dot_labels(n@, t as int) == seq![46u8] + n@[t as int] + dot_labels(
                n@,
                t as int + 1,
            ));
            assert(pre + (seq![46u8] + n@[t as int] + dot_labels(n@, t as int + 1)) =~= (pre
                + seq![46u8] + lab@) + dot_labels(n@, t as int + 1));
        }
        t = t + 1;
    }
    assert(dot_labels(n@, cnt as int) == Seq::<u8>::empty());
    assert(r@ + Seq::<u8>::empty() =~= r@);
    r
}

// ---------------------------------------------------------------------------
// The interpreter.
// ---------------------------------------------------------------------------

/// Interpret a decoded message against the expected message type and this
/// client's hardware address (from which its DUID is built).
pub fn interpret(m: &Dhcp6Message, expected: MessageType, mac: &[u8; 6]) -> (r: Result<
    Dhcp6Response,
    Dhcp6Error,
>)
    ensures
        (match (r, spec_interpret6(m@, expected, duid_bytes(mac@))) {
            (Ok(resp), Ok(l)) => resp@ == l,
            (Err(e1), Err(e2)) => e1 == e2,
            _ => false,
        }),
{
    let ghost duid = duid_bytes(mac@);
    if m.msg_type != expected {
        return Err(Dhcp6Error::WrongMessageType);
    }
    let duid_v = crate::ipv6_build::local_duid(mac);
    let mut client_id: Option<Vec<u8>> = None;
    let mut server_id: Option<Vec<u8>> = None;
    let mut pd: Option<PdPrefix> = None;
    let mut nameserver_addrs: Vec<[u8; 16]> = Vec::new();
    let mut domain_search_list: Vec<Vec<u8>> = Vec::new();
    let mut sip_server_addrs: Vec<[u8; 16]> = Vec::new();
    let mut sntp_server_addrs: Vec<[u8; 16]> = Vec::new();
    assert(lease_acc(
        client_id,
        server_id,
        pd,
        nameserver_addrs,
        domain_search_list,
        sip_server_addrs,
        sntp_server_addrs,
    ) =~~= lease6_init());
    let cnt = m.options.len();
    proof {
        assert(m@.options.skip(0) =~= m@.options);
    }
    let mut j: usize = 0;
    while j < cnt
        invariant
            j <= cnt,
            cnt == m.options@.len(),
            m@.options.len() == m.options@.len(),
            m@.msg_type == expected,
            duid == duid_bytes(mac@),
            duid_v@ == duid,
            fold6(
                m@.options.skip(j as int),
                duid,
                lease_acc(
                    client_id,
                    server_id,
                    pd,
                    nameserver_addrs,
                    domain_search_list,
                    sip_server_addrs,
                    sntp_server_addrs,
                ),
            ) == fold6(m@.options, duid, lease6_init()),
        decreases cnt - j,
    {
        let ghost pre = lease_acc(
            client_id,
            server_id,
            pd,
            nameserver_addrs,
            domain_search_list,
            sip_server_addrs,
            sntp_server_addrs,
        );
        let ghost ov = m@.options[j as int];
        proof {
            assert(m@.options[j as int] == m.options[j as int]@);
            assert(m@.options.skip(j as int)[0] == ov);
            assert(m@.options.skip(j as int).skip(1) =~= m@.options.skip(j as int + 1));
        }
        match &m.options[j] {
            Dhcp6Option::ClientId(id) => {
                if !bytes_eq(id, &duid_v) {
                    proof {
                        assert(step6(ov, duid, pre) == Err::<Lease6, Dhcp6Error>(
                            Dhcp6Error::ClientIdMismatch,
                        ));
                        assert(fold6(m@.options, duid, lease6_init()) == Err::<
                            Lease6,
                            Dhcp6Error,
                        >(Dhcp6Error::ClientIdMismatch));
                    }
                    return Err(Dhcp6Error::ClientIdMismatch);
                }
                client_id = Some(clone_bytes(id));
            },
            Dhcp6Option::ServerId(id) => {
                server_id = Some(clone_bytes(id));
            },
            Dhcp6Option::StatusCode(st, _) => {
                if *st != STATUS_SUCCESS {
                    proof {
                        assert(step6(ov, duid, pre) == Err::<Lease6, Dhcp6Error>(
                            Dhcp6Error::ServerStatus(*st),
                        ));
                        assert(fold6(m@.options, duid, lease6_init()) == Err::<
                            Lease6,
                            Dhcp6Error,
                        >(Dhcp6Error::ServerStatus(*st)));
                    }
                    return Err(Dhcp6Error::ServerStatus(*st));
                }
            },
            Dhcp6Option::DomainNameServers(a) => {
                let ghost av = a.deep_view();
                let mut k: usize = 0;
                while k < a.len()
                    invariant
                        k <= a@.len(),
                        av == a.deep_view(),
                        av.len() == a@.len(),
                        nameserver_addrs.deep_view() == pre.nameserver_addrs + av.take(k as int),
                    decreases a@.len() - k,
                {
                    let ghost p2 = nameserver_addrs.deep_view();
                    nameserver_addrs.push(a[k]);
                    proof {
                        assert(nameserver_addrs.deep_view() =~~= p2.push(av[k as int]));
                        assert(nameserver_addrs.deep_view() =~~= pre.nameserver_addrs + av.take(
                            k as int + 1,
                        ));
                    }
                    k = k + 1;
                }
                assert(av.take(av.len() as int) =~= av);
            },
            Dhcp6Option::DomainSearchList(ns) => {
                let ghost nv = ns.deep_view();
                let ghost joined = nv.map_values(|ls: Seq<Seq<u8>>| join_labels(ls));
                let mut k: usize = 0;
                while k < ns.len()
                    invariant
                        k <= ns@.len(),
                        nv == ns.deep_view(),
                        nv.len() == ns@.len(),
                        joined == nv.map_values(|ls: Seq<Seq<u8>>| join_labels(ls)),
                        domain_search_list.deep_view() == pre.domain_search_list + joined.take(
                            k as int,
                        ),
                    decreases ns@.len() - k,
                {
                    let ghost p2 = domain_search_list.deep_view();
                    let name = join_name(&ns[k]);
                    domain_search_list.push(name);
                    proof {
                        assert(ns@[k as int]@ == nv[k as int]);
                        assert(joined[k as int] == join_labels(nv[k as int]));
                        assert(domain_search_list.deep_view() =~~= p2.push(joined[k as int]));
                        assert(domain_search_list.deep_view() =~~= pre.domain_search_list
                            + joined.take(k as int + 1));
                    }
                    k = k + 1;
                }
                assert(joined.take(joined.len() as int) =~= joined);
            },
            Dhcp6Option::IaPd(c) => {
                if pd.is_none() {
                    proof {
                        assert(c@.opts.skip(0) =~= c@.opts);
                    }
                    let mut found: Option<PdPrefix> = None;
                    let mut k: usize = 0;
                    let pcnt = c.opts.len();
                    while k < pcnt && found.is_none()
                        invariant
                            k <= pcnt,
                            pcnt == c.opts@.len(),
                            c@.opts.len() == c.opts@.len(),
                            (match found {
                                None => first_prefix(c@.opts) == first_prefix(c@.opts.skip(
                                    k as int,
                                )),
                                Some(fp) => (match first_prefix(c@.opts) {
                                    Some(sp) => fp@.prefix == sp.prefix_ip && fp@.prefix_len
                                        == sp.prefix_len && fp@.preferred_lifetime
                                        == sp.preferred_lifetime && fp@.valid_lifetime
                                        == sp.valid_lifetime && fp@.t1 == c@.t1 && fp@.t2 == c@.t2,
                                    None => false,
                                }),
                            }),
                        decreases pcnt - k,
                    {
                        proof {
                            assert(c@.opts[k as int] == c.opts[k as int]@);
                            assert(c@.opts.skip(k as int)[0] == c@.opts[k as int]);
                            assert(c@.opts.skip(k as int).skip(1) =~= c@.opts.skip(k as int + 1));
                        }
                        match &c.opts[k] {
                            PdOpt::Prefix(p) => {
                                found = Some(
                                    PdPrefix {
                                        prefix: p.prefix_ip,
                                        prefix_len: p.prefix_len,
                                        preferred_lifetime: p.preferred_lifetime,
                                        valid_lifetime: p.valid_lifetime,
                                        t1: c.t1,
                                        t2: c.t2,
                                    },
                                );
                            },
                            _ => {},
                        }
                        k = k + 1;
                    }
                    proof {
                        if found is None {
                            assert(c@.opts.skip(pcnt as int) =~= Seq::<PdOptV>::empty());
                            assert(first_prefix(c@.opts) is None);
                        }
                    }
                    pd = found;
                    proof {
                        assert(pd.deep_view() =~~= pd_of_container(c@));
                    }
                }
            },
            Dhcp6Option::Unknown(code, d) => {
                if *code == 22 {
                    extend_groups16(d, &mut sip_server_addrs);
                } else if *code == 31 {
                    extend_groups16(d, &mut sntp_server_addrs);
                }
            },
            _ => {},
        }
        proof {
            let now = lease_acc(
                client_id,
                server_id,
                pd,
                nameserver_addrs,
                domain_search_list,
                sip_server_addrs,
                sntp_server_addrs,
            );
            assert(step6(ov, duid, pre) matches Ok(a2) && a2 =~~= now);
            assert(fold6(m@.options.skip(j as int), duid, pre) == fold6(
                m@.options.skip(j as int + 1),
                duid,
                now,
            ));
        }
        j = j + 1;
    }
    proof {
        assert(m@.options.skip(cnt as int) =~= Seq::<Opt6>::empty());
    }
    let cid = match client_id {
        Some(c) => c,
        None => {
            return Err(Dhcp6Error::MissingClientId);
        },
    };
    let sid = match server_id {
        Some(s) => s,
        None => {
            return Err(Dhcp6Error::MissingServerId);
        },
    };
    let resp = Dhcp6Response {
        client_id: cid,
        server_id: sid,
        pd,
        nameserver_addrs,
        domain_search_list,
        sip_server_addrs,
        sntp_server_addrs,
    };
    proof {
        assert(resp@ =~~= spec_interpret6(m@, expected, duid)->Ok_0);
    }
    Ok(resp)
}

/// The ghost lease of the interpreter's executable accumulators.
pub open spec fn lease_acc(
    client_id: Option<Vec<u8>>,
    server_id: Option<Vec<u8>>,
    pd: Option<PdPrefix>,
    ns: Vec<[u8; 16]>,
    dsl: Vec<Vec<u8>>,
    sip: Vec<[u8; 16]>,
    sntp: Vec<[u8; 16]>,
) -> Lease6 {
    Lease6 {
        client_id: client_id.deep_view(),
        server_id: server_id.deep_view(),
        pd: pd.deep_view(),
        nameserver_addrs: ns.deep_view(),
        domain_search_list: dsl.deep_view(),
        sip_server_addrs: sip.deep_view(),
        sntp_server_addrs: sntp.deep_view(),
    }
}

/// Interpret one raw datagram: decode it, then fold its options into a
/// lease response against the expected message type.
pub fn recv(b: &Vec<u8>, expected: MessageType, mac: &[u8; 6]) -> (r: Result<
    Dhcp6Response,
    Dhcp6Error,
>)
    ensures
        (match (r, spec_recv6(b@, expected, duid_bytes(mac@))) {
            (Ok(resp), Ok(l)) => resp@ == l,
            (Err(e1), Err(e2)) => e1 == e2,
            _ => false,
        }),
{
    match decode(b) {
        Ok(m) => interpret(&m, expected, mac),
        Err(e) => Err(e),
    }
}

} // verus!
