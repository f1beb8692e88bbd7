//! The direct proxy's request-side decisions.
//!
//! In direct-proxy mode the fabric dispatches requests itself: it reads the
//! `model` of the request body, picks one backend that serves it, scrubs
//! the hop-by-hop and sensitive headers, rewrites the target, and forwards.
//! This module holds those decisions; the I/O shell performs them.

use vstd::prelude::*;
use crate::aggregate::{copy_bytes, eps_of, push_all};
use crate::bytes_order::{lex_cmp, ByteOrder};
use crate::schemas::{FleetState, FleetStateV, ModelV};

verus! {

broadcast use crate::views::lemma_bytes_deep_view;

/// One backend able to serve a model: its upstream index and its address.
pub struct Candidate {
    pub i: u64,
    pub ip: Vec<u8>,
}

/// Mathematical value of a [`Candidate`].
pub ghost struct CandidateV {
    pub i: u64,
    pub ip: Seq<u8>,
}

impl DeepView for Candidate {
    type V = CandidateV;

    open spec fn deep_view(&self) -> CandidateV {
        CandidateV { i: self.i, ip: self.ip.deep_view() }
    }
}

/// Whether a model list advertises `id`.
pub open spec fn serves(ms: Seq<ModelV>, id: Seq<u8>) -> bool {
    exists|k: int| 0 <= k < ms.len() && (#[trigger] ms[k]).id == id
}

/// The serving endpoints of the first `n` upstreams, in fleet order.
pub open spec fn candidates_upto(state: FleetStateV, id: Seq<u8>, n: int) -> Seq<CandidateV>
    decreases n, 0int,
{
    if n <= 0 {
        Seq::empty()
    } else {
        candidates_upto(state, id, n - 1) + candidates_of_eps(
            (n - 1) as u64,
            eps_of(state, n - 1),
            id,
        )
    }
}

/// The serving endpoints among one upstream's endpoint list.
pub open spec fn candidates_of_eps(
    i: u64,
    eps: Seq<crate::schemas::EndpointV>,
    id: Seq<u8>,
) -> Seq<CandidateV>
    decreases eps.len(),
{
    if eps.len() == 0 {
        Seq::empty()
    } else {
        candidates_of_eps(i, eps.drop_last(), id) + (if serves(eps.last().models, id) {
            seq![CandidateV { i, ip: eps.last().ip }]
        } else {
            Seq::empty()
        })
    }
}

/// Every backend currently serving `id`, in fleet order.
pub open spec fn spec_candidates(state: FleetStateV, id: Seq<u8>) -> Seq<CandidateV> {
    candidates_upto(state, id, state.len() as int)
}

/// What the proxy does with one request, given the `model` the body named
/// (or that it named none) and a random draw.
pub enum RequestDecision {
    /// The body carried no `model`: answer 400 with the error envelope.
    MissingModel,
    /// No backend serves the model: answer 404 with the error envelope.
    UnknownModel,
    /// Forward to this backend.
    Forward { i: u64, ip: Vec<u8> },
}

/// Whether a model list of an executable endpoint advertises `id`.
fn serves_exec(models: &Vec<crate::schemas::Model>, id: &[u8]) -> (r: bool)
    ensures
        r <==> serves(models.deep_view(), id@),
{
    let ghost ms = models.deep_view();
    let mut k: usize = 0;
    while k < models.len()
        invariant
            0 <= k <= models@.len(),
            ms == models.deep_view(),
            ms.len() == models@.len(),
            forall|j: int| 0 <= j < k ==> (#[trigger] ms[j]).id != id@,
        decreases models@.len() - k,
    {
        proof {
            assert(ms[k as int] == models@[k as int].deep_view());
        }
        if crate::resources::bytes_eq(models[k].id.as_slice(), id) {
            return true;
        }
        k = k + 1;
    }
    false
}

/// Every backend currently serving `id`, in fleet order.
pub fn candidates(state: &FleetState, id: &[u8]) -> (r: Vec<Candidate>)
    ensures
        r.deep_view() == spec_candidates(state.deep_view(), id@),
{
    let ghost st = state.deep_view();
    let mut out: Vec<Candidate> = Vec::new();
    let mut i: usize = 0;
    while i < state.len()
        invariant
            0 <= i <= state@.len(),
            st == state.deep_view(),
            st.len() == state@.len(),
            out.deep_view() == candidates_upto(st, id@, i as int),
        decreases state@.len() - i,
    {
        let ghost eps = eps_of(st, i as int);
        proof {
            assert(state.deep_view()[i as int] == state@[i as int].deep_view());
        }
        match &state[i] {
            Some(endpoints) => {
                let ghost ev = endpoints.deep_view();
                proof {
                    assert(ev == eps);
                }
                let mut e: usize = 0;
                while e < endpoints.len()
                    invariant
                        0 <= e <= endpoints@.len(),
                        ev == endpoints.deep_view(),
                        ev.len() == endpoints@.len(),
                        i < state@.len(),
                        out.deep_view() == candidates_upto(st, id@, i as int) + candidates_of_eps(
                            i as u64,
                            ev.take(e as int),
                            id@,
                        ),
                    decreases endpoints@.len() - e,
                {
                    proof {
                        assert(ev.take(e + 1).drop_last() =~= ev.take(e as int));
                        assert(ev.take(e + 1).last() == ev[e as int]);
                        assert(endpoints.deep_view()[e as int] == endpoints@[e as int].deep_view());
                    }
                    if serves_exec(&endpoints[e].models, id) {
                        let c = Candidate { i: i as u64, ip: copy_bytes(endpoints[e].ip.as_slice()) };
                        proof {
                            assert(c.deep_view() == CandidateV { i: i as u64, ip: ev[e as int].ip });
                        }
                        let ghost prev = out;
                        out.push(c);
                        proof {
                            crate::views::lemma_push_deep(out, prev, c);
                            assert(out.deep_view() =~= candidates_upto(st, id@, i as int)
                                + candidates_of_eps(i as u64, ev.take(e + 1), id@));
                        }
                    } else {
                        proof {
                            assert(out.deep_view() =~= candidates_upto(st, id@, i as int)
                                + candidates_of_eps(i as u64, ev.take(e + 1), id@));
                        }
                    }
                    e = e + 1;
                }
                proof {
                    assert(ev.take(ev.len() as int) =~= ev);
                }
            },
            None => {
                proof {
                    assert(eps =~= Seq::<crate::schemas::EndpointV>::empty());
                    assert(out.deep_view() =~= candidates_upto(st, id@, i + 1));
                }
            },
        }
        i = i + 1;
    }
    out
}

/// Decides one request.  A body without a `model` is refused with 400; a
/// model no backend serves is refused with 404; otherwise one serving
/// backend is picked by the random draw, reduced modulo the number of
/// candidates.
pub fn decide_request(state: &FleetState, model: Option<&Vec<u8>>, draw: u64) -> (r:
    RequestDecision)
    ensures
        model is None <==> r is MissingModel,
        (model is Some && spec_candidates(state.deep_view(), model->0@).len() == 0) <==> r
            is UnknownModel,
        r is Forward ==> {
            let cands = spec_candidates(state.deep_view(), model->0@);
            &&& cands.len() > 0
            &&& r->Forward_i == cands[(draw as int) % (cands.len() as int)].i
            &&& r->Forward_ip@ == cands[(draw as int) % (cands.len() as int)].ip
        },
{
    let id = match model {
        Some(id) => id,
        None => {
            return RequestDecision::MissingModel;
        },
    };
    let cands = candidates(state, id.as_slice());
    if cands.len() == 0 {
        proof {
            assert(cands.deep_view().len() == 0);
        }
        return RequestDecision::UnknownModel;
    }
    let pick = (draw % (cands.len() as u64)) as usize;
    proof {
        assert(cands.deep_view().len() == cands@.len());
        assert((draw as int) % (cands.len() as int) == pick as int);
        assert(cands.deep_view()[pick as int] == cands@[pick as int].deep_view());
    }
    RequestDecision::Forward {
        i: cands[pick].i,
        ip: copy_bytes(cands[pick].ip.as_slice()),
    }
}

/// `authorization`
pub open spec fn lit_authorization() -> Seq<u8> {
    seq![97u8, 117u8, 116u8, 104u8, 111u8, 114u8, 105u8, 122u8, 97u8, 116u8, 105u8, 111u8, 110u8]
}

/// `connection`
pub open spec fn lit_connection() -> Seq<u8> {
    seq![99u8, 111u8, 110u8, 110u8, 101u8, 99u8, 116u8, 105u8, 111u8, 110u8]
}

/// `host`
pub open spec fn lit_host() -> Seq<u8> {
    seq![104u8, 111u8, 115u8, 116u8]
}

/// `upgrade`
pub open spec fn lit_upgrade() -> Seq<u8> {
    seq![117u8, 112u8, 103u8, 114u8, 97u8, 100u8, 101u8]
}

/// `api-key`
pub open spec fn lit_api_key() -> Seq<u8> {
    seq![97u8, 112u8, 105u8, 45u8, 107u8, 101u8, 121u8]
}

/// `content-length`
pub open spec fn lit_content_length() -> Seq<u8> {
    seq![99u8, 111u8, 110u8, 116u8, 101u8, 110u8, 116u8, 45u8, 108u8, 101u8, 110u8, 103u8, 116u8,
        104u8]
}

/// `content-type`
pub open spec fn lit_content_type() -> Seq<u8> {
    seq![99u8, 111u8, 110u8, 116u8, 101u8, 110u8, 116u8, 45u8, 116u8, 121u8, 112u8, 101u8]
}

/// The header names the proxy strips before forwarding: hop-by-hop and
/// sensitive ones.  The tunnel to the hosted variant strips its key header
/// instead of `upgrade`.
pub open spec fn scrubbed_name(name: Seq<u8>, hosted: bool) -> bool {
    ||| name == lit_authorization()
    ||| name == lit_connection()
    ||| name == lit_host()
    ||| (if hosted {
        name == lit_api_key()
    } else {
        name == lit_upgrade()
    })
}

/// The forwarded headers: everything but the scrubbed names, order kept.
/// Header names are compared as given; the shell hands them over in the
/// lowercase form its HTTP library normalizes to.
pub open spec fn scrub_spec(
    hs: Seq<(Seq<u8>, Seq<u8>)>,
    hosted: bool,
) -> Seq<(Seq<u8>, Seq<u8>)>
    decreases hs.len(),
{
    if hs.len() == 0 {
        Seq::empty()
    } else {
        scrub_spec(hs.drop_last(), hosted) + (if scrubbed_name(hs.last().0, hosted) {
            Seq::empty()
        } else {
            seq![hs.last()]
        })
    }
}

/// The headers kept on a tunneled response: only the content ones.
pub open spec fn keep_content_spec(hs: Seq<(Seq<u8>, Seq<u8>)>) -> Seq<(Seq<u8>, Seq<u8>)>
    decreases hs.len(),
{
    if hs.len() == 0 {
        Seq::empty()
    } else {
        keep_content_spec(hs.drop_last()) + (if hs.last().0 == lit_content_length() || hs.last().0
            == lit_content_type() {
            seq![hs.last()]
        } else {
            Seq::empty()
        })
    }
}

/// The bytes of `authorization`.
fn name_authorization() -> (r: Vec<u8>)
    ensures
        r@ == lit_authorization(),
{
    let mut v: Vec<u8> = Vec::new();
    v.push(97);
    v.push(117);
    v.push(116);
    v.push(104);
    v.push(111);
    v.push(114);
    v.push(105);
    v.push(122);
    v.push(97);
    v.push(116);
    v.push(105);
    v.push(111);
    v.push(110);
    proof {
        assert(v@ =~= lit_authorization());
    }
    v
}

/// The bytes of `connection`.
fn name_connection() -> (r: Vec<u8>)
    ensures
        r@ == lit_connection(),
{
    let mut v: Vec<u8> = Vec::new();
    v.push(99);
    v.push(111);
    v.push(110);
    v.push(110);
    v.push(101);
    v.push(99);
    v.push(116);
    v.push(105);
    v.push(111);
    v.push(110);
    proof {
        assert(v@ =~= lit_connection());
    }
    v
}

/// The bytes of `host`.
fn name_host() -> (r: Vec<u8>)
    ensures
        r@ == lit_host(),
{
    let mut v: Vec<u8> = Vec::new();
    v.push(104);
    v.push(111);
    v.push(115);
    v.push(116);
    proof {
        assert(v@ =~= lit_host());
    }
    v
}

/// The bytes of `upgrade`.
fn name_upgrade() -> (r: Vec<u8>)
    ensures
        r@ == lit_upgrade(),
{
    let mut v: Vec<u8> = Vec::new();
    v.push(117);
    v.push(112);
    v.push(103);
    v.push(114);
    v.push(97);
    v.push(100);
    v.push(101);
    proof {
        assert(v@ =~= lit_upgrade());
    }
    v
}

/// The bytes of `api-key`.
fn name_api_key() -> (r: Vec<u8>)
    ensures
        r@ == lit_api_key(),
{
    let mut v: Vec<u8> = Vec::new();
    v.push(97);
    v.push(112);
    v.push(105);
    v.push(45);
    v.push(107);
    v.push(101);
    v.push(121);
    proof {
        assert(v@ =~= lit_api_key());
    }
    v
}

/// The bytes of `content-length`.
fn name_content_length() -> (r: Vec<u8>)
    ensures
        r@ == lit_content_length(),
{
    let mut v: Vec<u8> = Vec::new();
    v.push(99);
    v.push(111);
    v.push(110);
    v.push(116);
    v.push(101);
    v.push(110);
    v.push(116);
    v.push(45);
    v.push(108);
    v.push(101);
    v.push(110);
    v.push(103);
    v.push(116);
    v.push(104);
    proof {
        assert(v@ =~= lit_content_length());
    }
    v
}

/// The bytes of `content-type`.
fn name_content_type() -> (r: Vec<u8>)
    ensures
        r@ == lit_content_type(),
{
    let mut v: Vec<u8> = Vec::new();
    v.push(99);
    v.push(111);
    v.push(110);
    v.push(116);
    v.push(101);
    v.push(110);
    v.push(116);
    v.push(45);
    v.push(116);
    v.push(121);
    v.push(112);
    v.push(101);
    proof {
        assert(v@ =~= lit_content_type());
    }
    v
}

/// Strips the hop-by-hop and sensitive headers before a request is
/// forwarded: `authorization`, `connection`, `host`, and `upgrade` (or
/// `api-key` for the hosted tunnel).  Everything else passes in order.
#[verifier::rlimit(50)]
pub fn scrub_headers(headers: &Vec<(Vec<u8>, Vec<u8>)>, hosted: bool) -> (r: Vec<
    (Vec<u8>, Vec<u8>),
>)
    ensures
        r.deep_view() == scrub_spec(headers.deep_view(), hosted),
{
    let auth = name_authorization();
    let conn = name_connection();
    let host = name_host();
    let upgrade = name_upgrade();
    let api_key = name_api_key();
    let ghost hv = headers.deep_view();
    let mut out: Vec<(Vec<u8>, Vec<u8>)> = Vec::new();
    let mut k: usize = 0;
    while k < headers.len()
        invariant
            0 <= k <= headers@.len(),
            hv == headers.deep_view(),
            hv.len() == headers@.len(),
            auth@ == lit_authorization(),
            conn@ == lit_connection(),
            host@ == lit_host(),
            upgrade@ == lit_upgrade(),
            api_key@ == lit_api_key(),
            out.deep_view() == scrub_spec(hv.take(k as int), hosted),
        decreases headers@.len() - k,
    {
        proof {
            assert(hv.take(k + 1).drop_last() =~= hv.take(k as int));
            assert(hv.take(k + 1).last() == hv[k as int]);
            assert(headers.deep_view()[k as int] == headers@[k as int].deep_view());
        }
        let name = &headers[k].0;
        let drop = matches!(lex_cmp(name.as_slice(), auth.as_slice()), ByteOrder::Equal)
            || matches!(lex_cmp(name.as_slice(), conn.as_slice()), ByteOrder::Equal) || matches!(
            lex_cmp(name.as_slice(), host.as_slice()),
            ByteOrder::Equal,
        ) || (if hosted {
            matches!(lex_cmp(name.as_slice(), api_key.as_slice()), ByteOrder::Equal)
        } else {
            matches!(lex_cmp(name.as_slice(), upgrade.as_slice()), ByteOrder::Equal)
        });
        if !drop {
            let pair = (copy_bytes(headers[k].0.as_slice()), copy_bytes(headers[k].1.as_slice()));
            proof {
                assert(pair.deep_view() == hv[k as int]);
            }
            let ghost prev = out;
            out.push(pair);
            proof {
                crate::views::lemma_push_deep(out, prev, pair);
                assert(out.deep_view() =~= scrub_spec(hv.take(k + 1), hosted));
            }
        } else {
            proof {
                assert(out.deep_view() =~= scrub_spec(hv.take(k + 1), hosted));
            }
        }
        k = k + 1;
    }
    proof {
        assert(hv.take(hv.len() as int) =~= hv);
    }
    out
}

/// Keeps only the content headers of a tunneled message: `content-length`
/// and `content-type`, in order.
#[verifier::rlimit(50)]
pub fn keep_content_headers(headers: &Vec<(Vec<u8>, Vec<u8>)>) -> (r: Vec<(Vec<u8>, Vec<u8>)>)
    ensures
        r.deep_view() == keep_content_spec(headers.deep_view()),
{
    let clen = name_content_length();
    let ctype = name_content_type();
    let ghost hv = headers.deep_view();
    let mut out: Vec<(Vec<u8>, Vec<u8>)> = Vec::new();
    let mut k: usize = 0;
    while k < headers.len()
        invariant
            0 <= k <= headers@.len(),
            hv == headers.deep_view(),
            hv.len() == headers@.len(),
            clen@ == lit_content_length(),
            ctype@ == lit_content_type(),
            out.deep_view() == keep_content_spec(hv.take(k as int)),
        decreases headers@.len() - k,
    {
        proof {
            assert(hv.take(k + 1).drop_last() =~= hv.take(k as int));
            assert(hv.take(k + 1).last() == hv[k as int]);
            assert(headers.deep_view()[k as int] == headers@[k as int].deep_view());
        }
        let name = &headers[k].0;
        let keep = matches!(lex_cmp(name.as_slice(), clen.as_slice()), ByteOrder::Equal)
            || matches!(lex_cmp(name.as_slice(), ctype.as_slice()), ByteOrder::Equal);
        if keep {
            let pair = (copy_bytes(headers[k].0.as_slice()), copy_bytes(headers[k].1.as_slice()));
            proof {
                assert(pair.deep_view() == hv[k as int]);
            }
            let ghost prev = out;
            out.push(pair);
            proof {
                crate::views::lemma_push_deep(out, prev, pair);
                assert(out.deep_view() =~= keep_content_spec(hv.take(k + 1)));
            }
        } else {
            proof {
                assert(out.deep_view() =~= keep_content_spec(hv.take(k + 1)));
            }
        }
        k = k + 1;
    }
    proof {
        assert(hv.take(hv.len() as int) =~= hv);
    }
    out
}

/// `2024-10-21`
pub open spec fn lit_default_api_version() -> Seq<u8> {
    seq![50u8, 48u8, 50u8, 52u8, 45u8, 49u8, 48u8, 45u8, 50u8, 49u8]
}

/// `https://`
pub open spec fn lit_https_scheme() -> Seq<u8> {
    seq![104u8, 116u8, 116u8, 112u8, 115u8, 58u8, 47u8, 47u8]
}

/// `.openai.azure.com/openai/deployments/`
pub open spec fn lit_hosted_base() -> Seq<u8> {
    seq![
        46u8,
        111u8,
        112u8,
        101u8,
        110u8,
        97u8,
        105u8,
        46u8,
        97u8,
        122u8,
        117u8,
        114u8,
        101u8,
        46u8,
        99u8,
        111u8,
        109u8,
        47u8,
        111u8,
        112u8,
        101u8,
        110u8,
        97u8,
        105u8,
        47u8,
        100u8,
        101u8,
        112u8,
        108u8,
        111u8,
        121u8,
        109u8,
        101u8,
        110u8,
        116u8,
        115u8,
        47u8,
    ]
}

/// `?api-version=`
pub open spec fn lit_api_version_query() -> Seq<u8> {
    seq![63u8, 97u8, 112u8, 105u8, 45u8, 118u8, 101u8, 114u8, 115u8, 105u8, 111u8, 110u8, 61u8]
}

/// The tunnel target of the hosted variant for one deployment and path.
pub open spec fn spec_hosted_url(
    resource: Seq<u8>,
    deployment: Seq<u8>,
    path: Seq<u8>,
    api_version: Seq<u8>,
) -> Seq<u8> {
    lit_https_scheme() + resource + lit_hosted_base() + deployment + seq![crate::ascii::SLASH]
        + path + lit_api_version_query() + api_version
}

/// The API version the hosted tunnel uses when none is configured.
pub fn default_api_version() -> (r: Vec<u8>)
    ensures
        r@ == lit_default_api_version(),
{
    let mut v: Vec<u8> = Vec::new();
    v.push(50);
    v.push(48);
    v.push(50);
    v.push(52);
    v.push(45);
    v.push(49);
    v.push(48);
    v.push(45);
    v.push(50);
    v.push(49);
    proof {
        assert(v@ =~= lit_default_api_version());
    }
    v
}

/// Builds the hosted tunnel target:
/// `https://<resource>.openai.azure.com/openai/deployments/<deployment>/<path>?api-version=<v>`.
#[verifier::rlimit(60)]
pub fn hosted_url(resource: &[u8], deployment: &[u8], path: &[u8], api_version: &[u8]) -> (r: Vec<
    u8,
>)
    ensures
        r@ == spec_hosted_url(resource@, deployment@, path@, api_version@),
{
    let mut out: Vec<u8> = Vec::new();
    out.push(104);
    out.push(116);
    out.push(116);
    out.push(112);
    out.push(115);
    out.push(58);
    out.push(47);
    out.push(47);
    proof {
        assert(out@ =~= lit_https_scheme());
    }
    push_all(&mut out, resource);
    out.push(46);
    out.push(111);
    out.push(112);
    out.push(101);
    out.push(110);
    out.push(97);
    out.push(105);
    out.push(46);
    out.push(97);
    out.push(122);
    out.push(117);
    out.push(114);
    out.push(101);
    out.push(46);
    out.push(99);
    out.push(111);
    out.push(109);
    out.push(47);
    out.push(111);
    out.push(112);
    out.push(101);
    out.push(110);
    out.push(97);
    out.push(105);
    out.push(47);
    out.push(100);
    out.push(101);
    out.push(112);
    out.push(108);
    out.push(111);
    out.push(121);
    out.push(109);
    out.push(101);
    out.push(110);
    out.push(116);
    out.push(115);
    out.push(47);
    proof {
        assert(out@ =~= lit_https_scheme() + resource@ + lit_hosted_base());
    }
    push_all(&mut out, deployment);
    out.push(crate::ascii::SLASH);
    push_all(&mut out, path);
    out.push(63);
    out.push(97);
    out.push(112);
    out.push(105);
    out.push(45);
    out.push(118);
    out.push(101);
    out.push(114);
    out.push(115);
    out.push(105);
    out.push(111);
    out.push(110);
    out.push(61);
    proof {
        assert(out@ =~= lit_https_scheme() + resource@ + lit_hosted_base() + deployment@ + seq![
            crate::ascii::SLASH,
        ] + path@ + lit_api_version_query());
    }
    push_all(&mut out, api_version);
    proof {
        assert(out@ =~= spec_hosted_url(resource@, deployment@, path@, api_version@));
    }
    out
}

/// Where the path of a URI starts: at the first `/` at or after `i`, or
/// at the end when the URI has no path.
pub open spec fn path_start(s: Seq<u8>, i: int) -> int
    decreases s.len() - i,
{
    if i < 0 || i >= s.len() {
        s.len() as int
    } else if s[i] == crate::ascii::SLASH {
        i
    } else {
        path_start(s, i + 1)
    }
}

/// The target of a forwarded request: the base URI's `scheme://authority`
/// with the reference's path-and-query in place of the base's.  The
/// authority ends at the first `/` after the `://` that follows the scheme's
/// colon.
pub open spec fn spec_resolve_uri(base: Seq<u8>, reference: Seq<u8>) -> Seq<u8> {
    let c = crate::config_text::find_byte(base, 0, crate::ascii::COLON);
    base.take(path_start(base, c + 3)) + reference
}

/// Rewrites a request target: the upstream's scheme and authority, the
/// client's path and query.
pub fn resolve_uri(base: &[u8], reference: &[u8]) -> (r: Vec<u8>)
    ensures
        r@ == spec_resolve_uri(base@, reference@),
{
    let mut c: usize = 0;
    while c < base.len() && base[c] != crate::ascii::COLON
        invariant
            0 <= c <= base@.len(),
            crate::config_text::find_byte(base@, 0, crate::ascii::COLON)
                == crate::config_text::find_byte(base@, c as int, crate::ascii::COLON),
        decreases base@.len() - c,
    {
        c = c + 1;
    }
    let start = if base.len() - c >= 3 {
        c + 3
    } else {
        base.len()
    };
    proof {
        assert(path_start(base@, c + 3) == path_start(base@, start as int));
    }
    let mut i: usize = start;
    while i < base.len() && base[i] != crate::ascii::SLASH
        invariant
            start <= i <= base@.len(),
            path_start(base@, start as int) == path_start(base@, i as int),
        decreases base@.len() - i,
    {
        i = i + 1;
    }
    proof {
        assert(path_start(base@, start as int) == i as int);
    }
    let head = vstd::slice::slice_subrange(base, 0, i);
    let mut out: Vec<u8> = Vec::new();
    push_all(&mut out, head);
    push_all(&mut out, reference);
    proof {
        assert(out@ =~= spec_resolve_uri(base@, reference@));
    }
    out
}

} // verus!
