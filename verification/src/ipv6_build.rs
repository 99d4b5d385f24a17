//! DHCPv6 message construction: the client DUID, the Solicit, and the
//! prefix-delegation Request, each proved to produce exactly the specified
//! option list, well formed for the wire codec.

use vstd::prelude::*;

use crate::ipv6::{
    dec_pdopts, dec_prefopts, dec_segs, enc_pdopts, enc_prefopts, frame6, iapd_bytes,
    iaprefix_bytes, opt6_payload, oro_bytes, parse_iapd, parse_iaprefix, parse_opt6, parse_oro,
    parse_pdopt, parse_prefopt, pdopt_payload, prefopt_payload, segs_bytes, spec_decode6, spec_encode6, wf_iapd, wf_iaprefix, wf_msg6, wf_opt6, wf_pdopt,
    wf_prefopt, Dhcp6Error, Dhcp6Message, Dhcp6Option, IaPd, IaPdV, IaPrefix, IaPrefixV,
    MessageType, Msg6, Opt6, PdOpt, PdOptV, PdPrefix, PdPrefixV, PrefixOpt, PrefixOptV,
    STATUS_SUCCESS, VENDOR_CODE_NTT,
};
use crate::ipv6_codec::{lemma_encode6_decode6, rt_opt6};
use crate::wire::{be16_at, be32_at, lemma_be16_of_u16_bytes, lemma_be32_of_u32_bytes, u16_bytes, u32_bytes};

verus! {

/// The DUID of a client with the given hardware address: type 3 (link-layer
/// address), hardware type 1 (Ethernet), then the six address bytes.
pub open spec fn duid_bytes(mac: Seq<u8>) -> Seq<u8> {
    seq![0u8, 3u8, 0u8, 1u8] + mac
}

/// Build this client's DUID, exactly ten bytes.
pub fn local_duid(mac: &[u8; 6]) -> (r: Vec<u8>)
    ensures
        r@ == duid_bytes(mac@),
        r@.len() == 10,
{
    let mut r: Vec<u8> = Vec::new();
    r.push(0u8);
    r.push(3u8);
    r.push(0u8);
    r.push(1u8);
    r.push(mac[0]);
    r.push(mac[1]);
    r.push(mac[2]);
    r.push(mac[3]);
    r.push(mac[4]);
    r.push(mac[5]);
    assert(r@ =~= duid_bytes(mac@));
    r
}

/// The options a Solicit carries, in order: the client DUID, the elapsed
/// time, and an empty IA-PD request keyed by the caller's IA identifier.
pub open spec fn solicit_options(mac: Seq<u8>, elapsed: u16, ia_id: u32) -> Seq<Opt6> {
    seq![
        Opt6::ClientId(duid_bytes(mac)),
        Opt6::ElapsedTime(elapsed),
        Opt6::IaPd(IaPdV { id: ia_id, t1: 0, t2: 0, opts: Seq::empty() }),
    ]
}

/// The Solicit message.
pub open spec fn solicit_msg(mac: Seq<u8>, elapsed: u16, ia_id: u32) -> Msg6 {
    Msg6 { msg_type: MessageType::Solicit, xid: 0, options: solicit_options(mac, elapsed, ia_id) }
}

/// The IA-Prefix echoed back in a Request: the offered prefix with a
/// Success status sub-option.
pub open spec fn echo_prefix(pd: crate::ipv6::PdPrefixV) -> IaPrefixV {
    IaPrefixV {
        preferred_lifetime: pd.preferred_lifetime,
        valid_lifetime: pd.valid_lifetime,
        prefix_len: pd.prefix_len,
        prefix_ip: pd.prefix,
        opts: seq![PrefixOptV::Status(STATUS_SUCCESS, Seq::empty())],
    }
}

/// The options a prefix-delegation Request carries, in order: the client
/// DUID, the server's identifier echoed from the Advertise, the option
/// request list, the elapsed time, the provider's vendor class carrying the
/// hardware address, and the IA-PD echoing the offered prefix.
pub open spec fn request_pd_options(
    mac: Seq<u8>,
    elapsed: u16,
    ia_id: u32,
    server_id: Seq<u8>,
    pd: crate::ipv6::PdPrefixV,
) -> Seq<Opt6> {
    seq![
        Opt6::ClientId(duid_bytes(mac)),
        Opt6::ServerId(server_id),
        Opt6::Oro(seq![25u16, 22u16, 31u16, 23u16, 24u16]),
        Opt6::ElapsedTime(elapsed),
        Opt6::VendorClass(VENDOR_CODE_NTT, seq![mac]),
        Opt6::IaPd(
            IaPdV { id: ia_id, t1: 0, t2: 0, opts: seq![PdOptV::Prefix(echo_prefix(pd))] },
        ),
    ]
}

/// The prefix-delegation Request message.
pub open spec fn request_pd_msg(
    mac: Seq<u8>,
    elapsed: u16,
    ia_id: u32,
    server_id: Seq<u8>,
    pd: crate::ipv6::PdPrefixV,
) -> Msg6 {
    Msg6 {
        msg_type: MessageType::Request,
        xid: 0,
        options: request_pd_options(mac, elapsed, ia_id, server_id, pd),
    }
}

/// Build the Solicit for the exchange's first phase.
pub fn solicit_pd(mac: &[u8; 6], elapsed: u16, ia_id: u32) -> (m: Dhcp6Message)
    ensures
        m@ == solicit_msg(mac@, elapsed, ia_id),
        wf_msg6(m@),
{
    let mut options: Vec<Dhcp6Option> = Vec::new();
    options.push(Dhcp6Option::ClientId(local_duid(mac)));
    options.push(Dhcp6Option::ElapsedTime(elapsed));
    let pd_opts: Vec<PdOpt> = Vec::new();
    assert(pd_opts.deep_view() =~= Seq::<PdOptV>::empty());
    options.push(Dhcp6Option::IaPd(IaPd { id: ia_id, t1: 0, t2: 0, opts: pd_opts }));
    let m = Dhcp6Message { msg_type: MessageType::Solicit, xid: 0, options };
    proof {
        assert(m@.options =~~= solicit_options(mac@, elapsed, ia_id));
        assert(m@ =~~= solicit_msg(mac@, elapsed, ia_id));
        let opts = solicit_options(mac@, elapsed, ia_id);
        let pdv = IaPdV { id: ia_id, t1: 0, t2: 0, opts: Seq::empty() };
        assert(enc_pdopts(pdv.opts) =~= Seq::<u8>::empty());
        assert(iapd_bytes(pdv).len() == 12);
        assert(wf_opt6(opts[0]));
        assert(wf_opt6(opts[1]));
        assert(wf_opt6(opts[2]));
        assert(forall|i: int| 0 <= i < opts.len() ==> wf_opt6(#[trigger] opts[i]));
    }
    m
}

/// Build the prefix-delegation Request for the exchange's second phase,
/// echoing the offered prefix and the chosen server.
pub fn request_pd(
    mac: &[u8; 6],
    elapsed: u16,
    ia_id: u32,
    server_id: Vec<u8>,
    pd: &PdPrefix,
) -> (m: Dhcp6Message)
    requires
        server_id@.len() <= 65535,
    ensures
        m@ == request_pd_msg(mac@, elapsed, ia_id, server_id@, pd@),
        wf_msg6(m@),
{
    let ghost sid = server_id@;
    let mut options: Vec<Dhcp6Option> = Vec::new();
    options.push(Dhcp6Option::ClientId(local_duid(mac)));
    options.push(Dhcp6Option::ServerId(server_id));
    let mut oro: Vec<u16> = Vec::new();
    oro.push(25u16);
    oro.push(22u16);
    oro.push(31u16);
    oro.push(23u16);
    oro.push(24u16);
    assert(oro@ =~= seq![25u16, 22u16, 31u16, 23u16, 24u16]);
    options.push(Dhcp6Option::Oro(oro));
    options.push(Dhcp6Option::ElapsedTime(elapsed));
    let mut segs: Vec<Vec<u8>> = Vec::new();
    let mut macv: Vec<u8> = Vec::new();
    macv.push(mac[0]);
    macv.push(mac[1]);
    macv.push(mac[2]);
    macv.push(mac[3]);
    macv.push(mac[4]);
    macv.push(mac[5]);
    assert(macv@ =~= mac@);
    segs.push(macv);
    proof {
        assert(segs.deep_view() =~~= seq![mac@]);
    }
    options.push(Dhcp6Option::VendorClass(VENDOR_CODE_NTT, segs));
    let mut prefix_opts: Vec<PrefixOpt> = Vec::new();
    let empty_msg: Vec<u8> = Vec::new();
    prefix_opts.push(PrefixOpt::Status(STATUS_SUCCESS, empty_msg));
    proof {
        assert(prefix_opts.deep_view() =~~= seq![
            PrefixOptV::Status(STATUS_SUCCESS, Seq::<u8>::empty()),
        ]);
    }
    let prefix = IaPrefix {
        preferred_lifetime: pd.preferred_lifetime,
        valid_lifetime: pd.valid_lifetime,
        prefix_len: pd.prefix_len,
        prefix_ip: pd.prefix,
        opts: prefix_opts,
    };
    proof {
        assert(prefix@ =~~= echo_prefix(pd@));
    }
    let mut pd_opts: Vec<PdOpt> = Vec::new();
    pd_opts.push(PdOpt::Prefix(prefix));
    proof {
        assert(pd_opts.deep_view() =~~= seq![PdOptV::Prefix(echo_prefix(pd@))]);
    }
    options.push(Dhcp6Option::IaPd(IaPd { id: ia_id, t1: 0, t2: 0, opts: pd_opts }));
    let m = Dhcp6Message { msg_type: MessageType::Request, xid: 0, options };
    proof {
        assert(m@.options =~~= request_pd_options(mac@, elapsed, ia_id, sid, pd@));
        assert(m@ =~~= request_pd_msg(mac@, elapsed, ia_id, sid, pd@));
        lemma_request_pd_wf(mac@, elapsed, ia_id, sid, pd@);
    }
    m
}

/// Every option of the prefix-delegation Request is well formed.
proof fn lemma_request_pd_wf(
    mac: Seq<u8>,
    elapsed: u16,
    ia_id: u32,
    server_id: Seq<u8>,
    pd: crate::ipv6::PdPrefixV,
)
    requires
        mac.len() == 6,
        server_id.len() <= 65535,
        pd.prefix.len() == 16,
    ensures
        wf_msg6(request_pd_msg(mac, elapsed, ia_id, server_id, pd)),
{
    let opts = request_pd_options(mac, elapsed, ia_id, server_id, pd);
    let sopt = PrefixOptV::Status(STATUS_SUCCESS, Seq::<u8>::empty());
    let p = echo_prefix(pd);
    assert(prefopt_payload(sopt).len() == 2);
    assert(seq![sopt].skip(1) =~= Seq::<PrefixOptV>::empty());
    assert(enc_prefopts(seq![sopt]) == frame6(13, prefopt_payload(sopt)) + enc_prefopts(
        Seq::<PrefixOptV>::empty(),
    ));
    assert(enc_prefopts(p.opts).len() == 6);
    assert(iaprefix_bytes(p).len() == 31);
    assert(wf_iaprefix(p)) by {
        assert(forall|i: int| 0 <= i < p.opts.len() ==> wf_prefopt(#[trigger] p.opts[i]));
    }
    let pdo = PdOptV::Prefix(p);
    let pdv = IaPdV { id: ia_id, t1: 0, t2: 0, opts: seq![pdo] };
    assert(seq![pdo].skip(1) =~= Seq::<PdOptV>::empty());
    assert(enc_pdopts(seq![pdo]) == frame6(26, pdopt_payload(pdo)) + enc_pdopts(
        Seq::<PdOptV>::empty(),
    ));
    assert(enc_pdopts(pdv.opts).len() == 35);
    assert(iapd_bytes(pdv).len() == 47);
    assert(wf_iapd(pdv)) by {
        assert(forall|i: int| 0 <= i < pdv.opts.len() ==> wf_pdopt(#[trigger] pdv.opts[i]));
    }
    lemma_oro_len(seq![25u16, 22u16, 31u16, 23u16, 24u16]);
    assert(crate::ipv6::segs_bytes(seq![mac]).len() == 8) by {
        assert(seq![mac].skip(1) =~= Seq::<Seq<u8>>::empty());
        assert(crate::ipv6::segs_bytes(seq![mac]) == crate::wire::u16_bytes(
            mac.len() as u16,
        ) + mac + crate::ipv6::segs_bytes(Seq::<Seq<u8>>::empty()));
    }
    assert(wf_opt6(opts[0]));
    assert(wf_opt6(opts[1]));
    assert(wf_opt6(opts[2]));
    assert(wf_opt6(opts[3]));
    assert(wf_opt6(opts[4]));
    assert(wf_opt6(opts[5]));
    assert(forall|i: int| 0 <= i < opts.len() ==> wf_opt6(#[trigger] opts[i]));
}


/// The encoded request list is two bytes per code.
proof fn lemma_oro_len(cs: Seq<u16>)
    ensures
        crate::ipv6::oro_bytes(cs).len() == 2 * cs.len(),
    decreases cs.len(),
{
    if cs.len() > 0 {
        lemma_oro_len(cs.skip(1));
    }
}


// ---------------------------------------------------------------------------
// The round trip: each option a builder inserts parses back to itself, so
// decoding an encoded builder message reproduces it whole.
// ---------------------------------------------------------------------------

/// The bytes of the `i`-th encoded request-list code are that code's bytes.
proof fn lemma_oro_index(cs: Seq<u16>, i: int)
    requires
        0 <= i < cs.len(),
    ensures
        forall|k: int| 0 <= k < 2 ==> oro_bytes(cs)[2 * i + k] == u16_bytes(cs[i])[k],
    decreases i,
{
    lemma_oro_len(cs.skip(1));
    assert(oro_bytes(cs) == u16_bytes(cs[0]) + oro_bytes(cs.skip(1)));
    if i == 0 {
        assert forall|k: int| 0 <= k < 2 implies oro_bytes(cs)[2 * i + k] == u16_bytes(cs[i])[k]
        by {
            assert(oro_bytes(cs)[k] == u16_bytes(cs[0])[k]);
        }
    } else {
        lemma_oro_index(cs.skip(1), i - 1);
        assert forall|k: int| 0 <= k < 2 implies oro_bytes(cs)[2 * i + k] == u16_bytes(cs[i])[k]
        by {
            assert(oro_bytes(cs)[2 * i + k] == oro_bytes(cs.skip(1))[2 * (i - 1) + k]);
            assert(oro_bytes(cs.skip(1))[2 * (i - 1) + k] == u16_bytes(cs.skip(1)[i - 1])[k]);
            assert(cs.skip(1)[i - 1] == cs[i]);
        }
    }
}

/// An option-request list parses back to itself.
proof fn lemma_rt_oro(cs: Seq<u16>)
    requires
        2 * cs.len() <= 65535,
    ensures
        rt_opt6(Opt6::Oro(cs)),
{
    let d = oro_bytes(cs);
    lemma_oro_len(cs);
    assert forall|t: int| 0 <= t < cs.len() implies parse_oro(d)[t] == cs[t] by {
        lemma_oro_index(cs, t);
        lemma_be16_of_u16_bytes(cs[t]);
        assert(d[2 * t + 0] == u16_bytes(cs[t])[0]);
        assert(d[2 * t + 1] == u16_bytes(cs[t])[1]);
    }
    assert(parse_oro(d) =~= cs);
}

/// An elapsed-time option parses back to itself.
proof fn lemma_rt_elapsed(x: u16)
    ensures
        rt_opt6(Opt6::ElapsedTime(x)),
{
    lemma_be16_of_u16_bytes(x);
}

/// An empty IA-PD request parses back to itself.
proof fn lemma_rt_iapd_empty(id: u32)
    ensures
        rt_opt6(Opt6::IaPd(IaPdV { id: id, t1: 0, t2: 0, opts: Seq::empty() })),
{
    let pdv = IaPdV { id: id, t1: 0, t2: 0, opts: Seq::empty() };
    let d = iapd_bytes(pdv);
    assert(enc_pdopts(pdv.opts) == Seq::<u8>::empty());
    assert(d.len() == 12);
    assert(dec_pdopts(d, 12, Seq::empty()) == Some(Seq::<PdOptV>::empty()));
    assert(d[0] == u32_bytes(id)[0] && d[1] == u32_bytes(id)[1] && d[2] == u32_bytes(id)[2] && d[3]
        == u32_bytes(id)[3]);
    lemma_be32_of_u32_bytes(id);
    assert(d[4] == u32_bytes(0u32)[0] && d[5] == u32_bytes(0u32)[1] && d[6] == u32_bytes(0u32)[2]
        && d[7] == u32_bytes(0u32)[3]);
    assert(d[8] == u32_bytes(0u32)[0] && d[9] == u32_bytes(0u32)[1] && d[10] == u32_bytes(0u32)[2]
        && d[11] == u32_bytes(0u32)[3]);
    lemma_be32_of_u32_bytes(0u32);
    assert(parse_iapd(d) is Some);
    assert(parse_iapd(d)->Some_0 =~= pdv);
}

/// The provider's one-segment vendor class parses back to itself.
proof fn lemma_rt_vendor_mac(mac: Seq<u8>)
    requires
        mac.len() == 6,
    ensures
        rt_opt6(Opt6::VendorClass(VENDOR_CODE_NTT, seq![mac])),
{
    let sb = segs_bytes(seq![mac]);
    assert(seq![mac].skip(1) =~= Seq::<Seq<u8>>::empty());
    assert(sb == u16_bytes(mac.len() as u16) + mac + segs_bytes(Seq::<Seq<u8>>::empty()));
    assert(sb.len() == 8);
    let d = opt6_payload(Opt6::VendorClass(VENDOR_CODE_NTT, seq![mac]));
    assert(d == u32_bytes(VENDOR_CODE_NTT) + sb);
    assert(d.len() == 12);
    assert(d[0] == u32_bytes(VENDOR_CODE_NTT)[0] && d[1] == u32_bytes(VENDOR_CODE_NTT)[1] && d[2]
        == u32_bytes(VENDOR_CODE_NTT)[2] && d[3] == u32_bytes(VENDOR_CODE_NTT)[3]);
    lemma_be32_of_u32_bytes(VENDOR_CODE_NTT);
    assert(be32_at(d, 0) == VENDOR_CODE_NTT);
    assert(d[4] == u16_bytes(6u16)[0] && d[5] == u16_bytes(6u16)[1]);
    lemma_be16_of_u16_bytes(6u16);
    assert(be16_at(d, 4) == 6);
    assert(d.subrange(6, 12) =~= mac);
    assert(dec_segs(d, 4, Seq::empty()) == dec_segs(d, 12, Seq::empty().push(d.subrange(6, 12))));
    assert(dec_segs(d, 12, Seq::empty().push(d.subrange(6, 12))) == Some(Seq::empty().push(
        d.subrange(6, 12),
    )));
    assert(Seq::<Seq<u8>>::empty().push(d.subrange(6, 12)) =~= seq![mac]);
    assert(parse_opt6(16, d) is Some);
    assert(parse_opt6(16, d)->Some_0 =~= Opt6::VendorClass(VENDOR_CODE_NTT, seq![mac]));
}

/// The IA-PD echoing one offered prefix parses back to itself.
proof fn lemma_rt_iapd_echo(ia_id: u32, pd: PdPrefixV)
    requires
        pd.prefix.len() == 16,
    ensures
        rt_opt6(
            Opt6::IaPd(
                IaPdV { id: ia_id, t1: 0, t2: 0, opts: seq![PdOptV::Prefix(echo_prefix(pd))] },
            ),
        ),
{
    let p = echo_prefix(pd);
    let sopt = PrefixOptV::Status(STATUS_SUCCESS, Seq::<u8>::empty());
    let pp = prefopt_payload(sopt);
    assert(pp =~= u16_bytes(0u16));
    assert(pp.len() == 2);
    assert(seq![sopt].skip(1) =~= Seq::<PrefixOptV>::empty());
    assert(enc_prefopts(seq![sopt]) == frame6(13, pp) + enc_prefopts(Seq::<PrefixOptV>::empty()));
    let ib = iaprefix_bytes(p);
    assert(ib.len() == 31);
    // The nested status option.
    assert(ib[25] == u16_bytes(13u16)[0] && ib[26] == u16_bytes(13u16)[1]);
    lemma_be16_of_u16_bytes(13u16);
    assert(be16_at(ib, 25) == 13);
    assert(ib[27] == u16_bytes(2u16)[0] && ib[28] == u16_bytes(2u16)[1]);
    lemma_be16_of_u16_bytes(2u16);
    assert(be16_at(ib, 27) == 2);
    assert(ib.subrange(29, 31) =~= u16_bytes(0u16));
    lemma_be16_of_u16_bytes(0u16);
    assert(be16_at(ib.subrange(29, 31), 0) == 0);
    assert(ib.subrange(29, 31).skip(2) =~= Seq::<u8>::empty());
    assert(parse_prefopt(13, ib.subrange(29, 31)) =~= sopt);
    assert(dec_prefopts(ib, 25, Seq::empty()) == dec_prefopts(ib, 31, Seq::empty().push(
        parse_prefopt(13, ib.subrange(29, 31)),
    )));
    assert(Seq::<PrefixOptV>::empty().push(parse_prefopt(13, ib.subrange(29, 31))) =~= seq![sopt]);
    assert(dec_prefopts(ib, 25, Seq::empty()) == Some(seq![sopt]));
    // The prefix fields.
    assert(ib[0] == u32_bytes(p.preferred_lifetime)[0] && ib[1] == u32_bytes(
        p.preferred_lifetime,
    )[1] && ib[2] == u32_bytes(p.preferred_lifetime)[2] && ib[3] == u32_bytes(
        p.preferred_lifetime,
    )[3]);
    lemma_be32_of_u32_bytes(p.preferred_lifetime);
    assert(ib[4] == u32_bytes(p.valid_lifetime)[0] && ib[5] == u32_bytes(p.valid_lifetime)[1]
        && ib[6] == u32_bytes(p.valid_lifetime)[2] && ib[7] == u32_bytes(p.valid_lifetime)[3]);
    lemma_be32_of_u32_bytes(p.valid_lifetime);
    assert(ib[8] == p.prefix_len);
    assert(ib.subrange(9, 25) =~= p.prefix_ip);
    assert(parse_iaprefix(ib) is Some);
    assert(parse_iaprefix(ib)->Some_0 =~= p);
    // The container.
    let pdo = PdOptV::Prefix(p);
    let pdv = IaPdV { id: ia_id, t1: 0, t2: 0, opts: seq![pdo] };
    assert(seq![pdo].skip(1) =~= Seq::<PdOptV>::empty());
    assert(enc_pdopts(seq![pdo]) == frame6(26, ib) + enc_pdopts(Seq::<PdOptV>::empty()));
    let d = iapd_bytes(pdv);
    assert(d.len() == 47);
    assert(d[12] == u16_bytes(26u16)[0] && d[13] == u16_bytes(26u16)[1]);
    lemma_be16_of_u16_bytes(26u16);
    assert(be16_at(d, 12) == 26);
    assert(d[14] == u16_bytes(31u16)[0] && d[15] == u16_bytes(31u16)[1]);
    lemma_be16_of_u16_bytes(31u16);
    assert(be16_at(d, 14) == 31);
    assert(d.subrange(16, 47) =~= ib);
    assert(parse_pdopt(26, d.subrange(16, 47)) == Some(PdOptV::Prefix(parse_iaprefix(
        ib,
    )->Some_0)));
    assert(parse_pdopt(26, d.subrange(16, 47))->Some_0 =~= pdo);
    assert(dec_pdopts(d, 12, Seq::empty()) == dec_pdopts(d, 47, Seq::empty().push(
        parse_pdopt(26, d.subrange(16, 47))->Some_0,
    )));
    assert(Seq::<PdOptV>::empty().push(parse_pdopt(26, d.subrange(16, 47))->Some_0) =~= seq![pdo]);
    assert(dec_pdopts(d, 12, Seq::empty()) == Some(seq![pdo]));
    assert(d[0] == u32_bytes(ia_id)[0] && d[1] == u32_bytes(ia_id)[1] && d[2] == u32_bytes(
        ia_id,
    )[2] && d[3] == u32_bytes(ia_id)[3]);
    lemma_be32_of_u32_bytes(ia_id);
    assert(d[4] == u32_bytes(0u32)[0] && d[5] == u32_bytes(0u32)[1] && d[6] == u32_bytes(0u32)[2]
        && d[7] == u32_bytes(0u32)[3]);
    assert(d[8] == u32_bytes(0u32)[0] && d[9] == u32_bytes(0u32)[1] && d[10] == u32_bytes(0u32)[2]
        && d[11] == u32_bytes(0u32)[3]);
    lemma_be32_of_u32_bytes(0u32);
    assert(parse_iapd(d) is Some);
    assert(parse_iapd(d)->Some_0 =~= pdv);
}

/// Round trip of the Solicit: decoding its encoding reproduces the message,
/// every inserted option included.
pub proof fn lemma_solicit_roundtrip(mac: Seq<u8>, elapsed: u16, ia_id: u32)
    requires
        mac.len() == 6,
    ensures
        spec_decode6(spec_encode6(solicit_msg(mac, elapsed, ia_id))) == Ok::<Msg6, Dhcp6Error>(
            solicit_msg(mac, elapsed, ia_id),
        ),
{
    let opts = solicit_options(mac, elapsed, ia_id);
    assert(rt_opt6(opts[0]));
    lemma_rt_elapsed(elapsed);
    lemma_rt_iapd_empty(ia_id);
    assert(forall|t: int| 0 <= t < opts.len() ==> rt_opt6(#[trigger] opts[t]));
    lemma_encode6_decode6(solicit_msg(mac, elapsed, ia_id));
}

/// Round trip of the prefix-delegation Request: decoding its encoding
/// reproduces the message, every inserted option included.
pub proof fn lemma_request_pd_roundtrip(
    mac: Seq<u8>,
    elapsed: u16,
    ia_id: u32,
    server_id: Seq<u8>,
    pd: PdPrefixV,
)
    requires
        mac.len() == 6,
        server_id.len() <= 65535,
        pd.prefix.len() == 16,
    ensures
        spec_decode6(spec_encode6(request_pd_msg(mac, elapsed, ia_id, server_id, pd))) == Ok::<
            Msg6,
            Dhcp6Error,
        >(request_pd_msg(mac, elapsed, ia_id, server_id, pd)),
{
    let opts = request_pd_options(mac, elapsed, ia_id, server_id, pd);
    assert(rt_opt6(opts[0]));
    assert(rt_opt6(opts[1]));
    lemma_rt_oro(seq![25u16, 22u16, 31u16, 23u16, 24u16]);
    lemma_rt_elapsed(elapsed);
    lemma_rt_vendor_mac(mac);
    lemma_rt_iapd_echo(ia_id, pd);
    assert(forall|t: int| 0 <= t < opts.len() ==> rt_opt6(#[trigger] opts[t]));
    lemma_encode6_decode6(request_pd_msg(mac, elapsed, ia_id, server_id, pd));
}

} // verus!
