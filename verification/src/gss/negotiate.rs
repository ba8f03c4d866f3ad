//! Accepting a negotiation from beginning to end: what is made and verified
//! under a key comes in as functions.

use crate::gss::context::{seq_step, ChannelBindings, DelegatedFacts, GssContext};
use crate::gss::error::{inner_error, Error};
use crate::gss::establish::{accept_result, VerifiedReq, VerifyError};
use crate::gss::mic::{
    cksum_result, mic_input, mic_octets, mic_token, mic_token_result, CksumVerdict, MicToken,
};
use crate::gss::oid::{wrapped_app, KRB5_OID};
use crate::gss::spnego::{
    list_has_krb5, neg_init, neg_resp, octets_of, resp_mic, slice_view, spnego_accept_start,
    spnego_response, NegInit, NegView, SPNEGO_ACCEPT_COMPLETED, TOK_AP_REQ,
};
use crate::gss::wrap::{sign_usage, token_flags, KU_ACCEPTOR_SIGN, KU_INITIATOR_SIGN};
use crate::msg::EncryptionKey;
use crate::name::PrincipalName;
use vstd::prelude::*;
use vstd::string::*;

verus! {

/// The key usage of a checksum by this side.
pub open spec fn usage_of(initiator: bool) -> u32 {
    if initiator {
        KU_INITIATOR_SIGN
    } else {
        KU_ACCEPTOR_SIGN
    }
}

/// The key usage of a checksum by the other side.
pub open spec fn peer_usage(initiator: bool) -> u32 {
    usage_of(!initiator)
}

/// `check` gave `verdict` of the checksum in a token over `data`.
pub open spec fn judged_mic<C: Fn(&EncryptionKey, u32, &Vec<u8>, &Vec<u8>) -> CksumVerdict>(
    check: C,
    key: EncryptionKey,
    usage: u32,
    data: Seq<u8>,
    t: MicToken,
    verdict: CksumVerdict,
) -> bool {
    exists|x: Vec<u8>|
        x@ == mic_input(data, t.flags, t.seq) && #[trigger] call_ensures(
            check,
            (&key, usage, &x, &t.mac),
            verdict,
        )
}

/// What verifying a checksum token over `data` comes to; `c` becomes `d`.
pub open spec fn mic_result<C: Fn(&EncryptionKey, u32, &Vec<u8>, &Vec<u8>) -> CksumVerdict>(
    c: GssContext,
    d: GssContext,
    data: Seq<u8>,
    token: Seq<u8>,
    check: C,
    r: Result<(), Error>,
) -> bool {
    exists|t: Result<MicToken, Error>|
        {
            &&& #[trigger] mic_token_result(token, c.initiator, t)
            &&& match t {
                Err(e) => r == Err::<(), Error>(e) && d == c,
                Ok(w) => match c.key_for(w.flags) {
                    None => (r matches Err(x) && inner_error(x, "gss acceptor subkey"@)) && d == c,
                    Some(k) => exists|verdict: CksumVerdict|
                        {
                            &&& #[trigger] judged_mic(
                                check,
                                k,
                                peer_usage(c.initiator),
                                data,
                                w,
                                verdict,
                            )
                            &&& match cksum_result(verdict) {
                                Err(e) => r == Err::<(), Error>(e) && d == c,
                                Ok(()) => match seq_step(c.seq_state(), w.seq) {
                                    None => r == Err::<(), Error>(Error::Sequence) && d == c,
                                    Some(st) => r is Ok && c.same_but_window(d) && d.wf()
                                        && d.seq_state() == st,
                                },
                            }
                        },
                },
            }
        }
}

/// `mac` gave `m` for the checksum over `data` that the context makes next.
pub open spec fn made_mic<M: Fn(&EncryptionKey, u32, &Vec<u8>) -> Result<Vec<u8>, Error>>(
    mac: M,
    c: GssContext,
    data: Seq<u8>,
    m: Result<Vec<u8>, Error>,
) -> bool {
    exists|x: Vec<u8>|
        x@ == mic_input(data, token_flags(c.initiator, false, false), c.send_seq)
            && #[trigger] call_ensures(mac, (&c.session, usage_of(c.initiator), &x), m)
}

impl GssContext {
    /// Verifies a checksum token over `data`. `check` judges the checksum
    /// under a key.
    pub fn verify_mic_with<C: Fn(&EncryptionKey, u32, &Vec<u8>, &Vec<u8>) -> CksumVerdict>(
        &mut self,
        data: &[u8],
        token: &[u8],
        check: &C,
    ) -> (r: Result<(), Error>)
        requires
            old(self).wf(),
            forall|k: EncryptionKey, u: u32, x: Vec<u8>, m: Vec<u8>| #[trigger]
                call_requires(*check, (&k, u, &x, &m)),
        ensures
            final(self).wf(),
            mic_result(*old(self), *final(self), data@, token@, *check, r),
    {
        let t = crate::gss::mic::open_mic_token(token, self.initiator);
        proof {
            assert(mic_token_result(token@, self.initiator, t));
        }
        let w = match t {
            Err(e) => {
                return Err(e);
            },
            Ok(w) => w,
        };
        let verdict: CksumVerdict = match self.recv_key(w.flags) {
            Err(e) => {
                return Err(e);
            },
            Ok(key) => {
                let x = mic_octets(data, w.flags, w.seq);
                let v: CksumVerdict = check(key, sign_usage(!self.initiator), &x, &w.mac);
                proof {
                    assert(judged_mic(*check, *key, peer_usage(self.initiator), data@, w, v));
                }
                v
            },
        };
        self.verify_mic(&w, verdict)
    }

    /// Makes the checksum token over `data`. `mac` makes the checksum under a
    /// key.
    pub fn get_mic_with<M: Fn(&EncryptionKey, u32, &Vec<u8>) -> Result<Vec<u8>, Error>>(
        &mut self,
        data: &[u8],
        mac: &M,
    ) -> (r: Result<Vec<u8>, Error>)
        requires
            forall|k: EncryptionKey, u: u32, x: Vec<u8>| #[trigger]
                call_requires(*mac, (&k, u, &x)),
        ensures
            exists|m: Result<Vec<u8>, Error>| #[trigger]
                made_mic(*mac, *old(self), data@, m) && (match m {
                    Err(e) => r == Err::<Vec<u8>, Error>(e) && *final(self) == *old(self),
                    Ok(v) => (r matches Ok(tok) && tok@ == mic_token(
                        v@,
                        token_flags(old(self).initiator, false, false),
                        old(self).send_seq,
                    )) && *final(self) == (GssContext {
                        send_seq: old(self).send_seq.wrapping_add(1),
                        ..*old(self)
                    }),
                }),
    {
        let x = self.get_mic_input(data);
        let m = mac(&self.session, sign_usage(self.initiator), &x);
        proof {
            assert(made_mic(*mac, *old(self), data@, m));
        }
        match m {
            Err(e) => Err(e),
            Ok(v) => Ok(self.get_mic(v.as_slice())),
        }
    }

    /// Verifies the checksum over the negotiated list in a later response;
    /// refused where nothing was negotiated.
    pub fn verify_spnego_mic<C: Fn(&EncryptionKey, u32, &Vec<u8>, &Vec<u8>) -> CksumVerdict>(
        &mut self,
        token: &[u8],
        check: &C,
    ) -> (r: Result<(), Error>)
        requires
            old(self).wf(),
            forall|k: EncryptionKey, u: u32, x: Vec<u8>, m: Vec<u8>| #[trigger]
                call_requires(*check, (&k, u, &x, &m)),
        ensures
            final(self).wf(),
            match (old(self).spnego_mech_list, resp_mic(token@)) {
                (Some(list), Some(mic)) => mic_result(
                    *old(self),
                    *final(self),
                    list@,
                    mic,
                    *check,
                    r,
                ),
                _ => r == Err::<(), Error>(Error::Truncated) && *final(self) == *old(self),
            },
    {
        let mic = match self.spnego_mic_token(token) {
            Err(e) => {
                return Err(e);
            },
            Ok(v) => v,
        };
        let list: Vec<u8> = match &self.spnego_mech_list {
            Some(l) => crate::bytes::copy(l.as_slice()),
            None => {
                return Err(Error::Truncated);
            },
        };
        self.verify_mic_with(list.as_slice(), mic.as_slice(), check)
    }
}

/// The Kerberos token of an offer, in its frame.
pub open spec fn offered_token(v: NegView) -> Seq<u8> {
    if v.mech_token.len() > 0 && v.mech_token[0] == 0x60 {
        v.mech_token
    } else {
        wrapped_app(TOK_AP_REQ@, v.mech_token)
    }
}

/// What the last step of accepting comes to: the checksum over the list is
/// made, and the response is put together.
pub open spec fn response_result<
    M: Fn(&EncryptionKey, u32, &Vec<u8>) -> Result<Vec<u8>, Error>,
>(
    c: GssContext,
    ap_rep: Option<Vec<u8>>,
    list: Seq<u8>,
    mac: M,
    r: Result<(GssContext, Vec<u8>), Error>,
) -> bool {
    exists|m: Result<Vec<u8>, Error>|
        {
            &&& #[trigger] made_mic(mac, c, list, m)
            &&& match m {
                Err(e) => r matches Err(x) && x == e,
                Ok(v) => r matches Ok(t) && {
                    &&& t.0 == (GssContext {
                        send_seq: c.send_seq.wrapping_add(1),
                        spnego_mech_list: t.0.spnego_mech_list,
                        ..c
                    })
                    &&& t.0.spnego_mech_list matches Some(l) && l@ == list
                    &&& t.1@ == neg_resp(
                        SPNEGO_ACCEPT_COMPLETED,
                        KRB5_OID@,
                        octets_of(ap_rep),
                        Some(mic_token(v@, token_flags(c.initiator, false, false), c.send_seq)),
                    )
                },
            }
        }
}

/// What accepting an offer comes to once its Kerberos token was accepted: a
/// checksum over the list that came with it has to be right.
pub open spec fn listed_result<
    C: Fn(&EncryptionKey, u32, &Vec<u8>, &Vec<u8>) -> CksumVerdict,
    M: Fn(&EncryptionKey, u32, &Vec<u8>) -> Result<Vec<u8>, Error>,
>(
    c: GssContext,
    ap_rep: Option<Vec<u8>>,
    v: NegView,
    check: C,
    mac: M,
    r: Result<(GssContext, Vec<u8>), Error>,
) -> bool {
    match v.mic {
        None => response_result(c, ap_rep, v.mech_list, mac, r),
        Some(tok) => exists|d: GssContext, m: Result<(), Error>|
            {
                &&& #[trigger] mic_result(c, d, v.mech_list, tok, check, m)
                &&& match m {
                    Err(e) => r matches Err(x) && x == e,
                    Ok(()) => response_result(d, ap_rep, v.mech_list, mac, r),
                }
            },
    }
}

/// What accepting a negotiation comes to.
pub open spec fn negotiation_result<
    V: Fn(
        &Vec<u8>,
        &[EncryptionKey],
        Option<&[u32]>,
        Option<&PrincipalName>,
        Option<&str>,
    ) -> Result<VerifiedReq, VerifyError>,
    O: Fn(&EncryptionKey, &Vec<u8>) -> Option<DelegatedFacts>,
    P: Fn(&EncryptionKey, u32, u32) -> Result<Vec<u8>, Error>,
    C: Fn(&EncryptionKey, u32, &Vec<u8>, &Vec<u8>) -> CksumVerdict,
    M: Fn(&EncryptionKey, u32, &Vec<u8>) -> Result<Vec<u8>, Error>,
>(
    token: Seq<u8>,
    keys: &[EncryptionKey],
    kvnos: Option<&[u32]>,
    bindings: Option<&ChannelBindings>,
    server: Option<&PrincipalName>,
    realm: Option<&str>,
    verify: V,
    open: O,
    answer: P,
    check: C,
    mac: M,
    r: Result<(GssContext, Vec<u8>), Error>,
) -> bool {
    match neg_init(token) {
        None => r matches Err(x) && x == Error::Truncated,
        Some(v) => if list_has_krb5(v.mech_list) != Some(true) {
            r matches Err(x) && x == Error::Truncated
        } else {
            exists|a: Result<(GssContext, Option<Vec<u8>>), Error>|
                {
                    &&& #[trigger] accept_result(
                        offered_token(v),
                        keys,
                        kvnos,
                        bindings,
                        server,
                        realm,
                        verify,
                        open,
                        answer,
                        a,
                    )
                    &&& match a {
                        Err(e) => r matches Err(x) && x == e,
                        Ok(t) => listed_result(t.0, t.1, v, check, mac, r),
                    }
                }
        },
    }
}

/// Makes the checksum over the list and puts the response together.
fn respond<M: Fn(&EncryptionKey, u32, &Vec<u8>) -> Result<Vec<u8>, Error>>(
    c: GssContext,
    ap_rep: Option<Vec<u8>>,
    list: Vec<u8>,
    mac: &M,
) -> (r: Result<(GssContext, Vec<u8>), Error>)
    requires
        forall|k: EncryptionKey, u: u32, x: Vec<u8>| #[trigger] call_requires(*mac, (&k, u, &x)),
    ensures
        response_result(c, ap_rep, list@, *mac, r),
{
    let mut d = c;
    let tok = match d.get_mic_with(list.as_slice(), mac) {
        Err(e) => {
            return Err(e);
        },
        Ok(t) => t,
    };
    d.spnego_mech_list = Some(list);
    let rep: Option<&[u8]> = match &ap_rep {
        Some(x) => Some(x.as_slice()),
        None => None,
    };
    let resp = spnego_response(rep, tok.as_slice());
    proof {
        assert(slice_view(rep) == octets_of(ap_rep));
    }
    Ok((d, resp))
}

/// The steps of a negotiation with a checksum over the list make up the whole.
proof fn lemma_listed<
    C: Fn(&EncryptionKey, u32, &Vec<u8>, &Vec<u8>) -> CksumVerdict,
    M: Fn(&EncryptionKey, u32, &Vec<u8>) -> Result<Vec<u8>, Error>,
>(
    c: GssContext,
    d: GssContext,
    ap_rep: Option<Vec<u8>>,
    v: NegView,
    check: C,
    mac: M,
    m: Result<(), Error>,
    r: Result<(GssContext, Vec<u8>), Error>,
)
    requires
        v.mic matches Some(tok) && mic_result(c, d, v.mech_list, tok, check, m),
        match m {
            Err(e) => r matches Err(x) && x == e,
            Ok(()) => response_result(d, ap_rep, v.mech_list, mac, r),
        },
    ensures
        listed_result(c, ap_rep, v, check, mac, r),
{
    let tok = v.mic->0;
    assert(mic_result(c, d, v.mech_list, tok, check, m));
}

/// Ends a negotiation whose Kerberos token was accepted.
fn conclude<
    C: Fn(&EncryptionKey, u32, &Vec<u8>, &Vec<u8>) -> CksumVerdict,
    M: Fn(&EncryptionKey, u32, &Vec<u8>) -> Result<Vec<u8>, Error>,
>(
    init: NegInit,
    c: GssContext,
    ap_rep: Option<Vec<u8>>,
    check: &C,
    mac: &M,
) -> (r: Result<(GssContext, Vec<u8>), Error>)
    requires
        c.wf(),
        forall|k: EncryptionKey, u: u32, x: Vec<u8>, m: Vec<u8>| #[trigger]
            call_requires(*check, (&k, u, &x, &m)),
        forall|k: EncryptionKey, u: u32, x: Vec<u8>| #[trigger] call_requires(*mac, (&k, u, &x)),
    ensures
        listed_result(c, ap_rep, init@, *check, *mac, r),
{
    let mut d = c;
    let m: Result<(), Error> = match &init.mic {
        Some(tok) => {
            let m = d.verify_mic_with(init.mech_list_der.as_slice(), tok.as_slice(), check);
            proof {
                assert(mic_result(c, d, init@.mech_list, tok@, *check, m));
            }
            m
        },
        None => Ok(()),
    };
    let ghost second = d;
    let ghost judged = m;
    match m {
        Err(e) => {
            proof {
                lemma_listed(
                    c,
                    second,
                    ap_rep,
                    init@,
                    *check,
                    *mac,
                    judged,
                    Err::<(GssContext, Vec<u8>), Error>(e),
                );
            }
            Err(e)
        },
        Ok(()) => {
            let ghost v = init@;
            let r = respond(d, ap_rep, init.mech_list_der, mac);
            proof {
                if v.mic is Some {
                    lemma_listed(c, second, ap_rep, v, *check, *mac, judged, r);
                }
            }
            r
        },
    }
}

/// Accepts a negotiation: the offer has to hold Kerberos and its token has to
/// be accepted; a checksum over the offered list has to be right; the
/// acceptor's checksum over the list goes into the response.
pub fn spnego_accept_kt<
    V: Fn(
        &Vec<u8>,
        &[EncryptionKey],
        Option<&[u32]>,
        Option<&PrincipalName>,
        Option<&str>,
    ) -> Result<VerifiedReq, VerifyError>,
    O: Fn(&EncryptionKey, &Vec<u8>) -> Option<DelegatedFacts>,
    P: Fn(&EncryptionKey, u32, u32) -> Result<Vec<u8>, Error>,
    C: Fn(&EncryptionKey, u32, &Vec<u8>, &Vec<u8>) -> CksumVerdict,
    M: Fn(&EncryptionKey, u32, &Vec<u8>) -> Result<Vec<u8>, Error>,
>(
    token: &[u8],
    keys: &[EncryptionKey],
    kvnos: Option<&[u32]>,
    bindings: Option<&ChannelBindings>,
    server: Option<&PrincipalName>,
    realm: Option<&str>,
    verify: V,
    open: O,
    answer: P,
    check: C,
    mac: M,
) -> (r: Result<(GssContext, Vec<u8>), Error>)
    requires
        forall|
            x: Vec<u8>,
            s: &[EncryptionKey],
            k: Option<&[u32]>,
            n: Option<&PrincipalName>,
            m: Option<&str>,
        | #[trigger]
            call_requires(verify, (&x, s, k, n, m)),
        forall|k: EncryptionKey, x: Vec<u8>| #[trigger] call_requires(open, (&k, &x)),
        forall|k: EncryptionKey, t: u32, u: u32| #[trigger] call_requires(answer, (&k, t, u)),
        forall|k: EncryptionKey, u: u32, x: Vec<u8>, m: Vec<u8>| #[trigger]
            call_requires(check, (&k, u, &x, &m)),
        forall|k: EncryptionKey, u: u32, x: Vec<u8>| #[trigger] call_requires(mac, (&k, u, &x)),
    ensures
        negotiation_result(
            token@,
            keys,
            if server is Some {
                kvnos
            } else {
                None
            },
            bindings,
            server,
            realm,
            verify,
            open,
            answer,
            check,
            mac,
            r,
        ),
{
    let (init, mech) = match spnego_accept_start(token) {
        Err(e) => {
            return Err(e);
        },
        Ok(t) => t,
    };
    let a = GssContext::accept_sec_context_kt(
        mech.as_slice(),
        keys,
        kvnos,
        bindings,
        server,
        realm,
        verify,
        open,
        answer,
    );
    let ghost v = init@;
    proof {
        assert(mech@ == offered_token(v));
    }
    proof {
        assert(accept_result(
            offered_token(v),
            keys,
            if server is Some {
                kvnos
            } else {
                None
            },
            bindings,
            server,
            realm,
            verify,
            open,
            answer,
            a,
        ));
    }
    match a {
        Err(e) => Err(e),
        Ok((c, ap_rep)) => conclude(init, c, ap_rep, &check, &mac),
    }
}

/// Accepts a negotiation under keys whose versions are not known.
pub fn spnego_accept<
    V: Fn(
        &Vec<u8>,
        &[EncryptionKey],
        Option<&[u32]>,
        Option<&PrincipalName>,
        Option<&str>,
    ) -> Result<VerifiedReq, VerifyError>,
    O: Fn(&EncryptionKey, &Vec<u8>) -> Option<DelegatedFacts>,
    P: Fn(&EncryptionKey, u32, u32) -> Result<Vec<u8>, Error>,
    C: Fn(&EncryptionKey, u32, &Vec<u8>, &Vec<u8>) -> CksumVerdict,
    M: Fn(&EncryptionKey, u32, &Vec<u8>) -> Result<Vec<u8>, Error>,
>(
    token: &[u8],
    keys: &[EncryptionKey],
    bindings: Option<&ChannelBindings>,
    server: Option<&PrincipalName>,
    realm: Option<&str>,
    verify: V,
    open: O,
    answer: P,
    check: C,
    mac: M,
) -> (r: Result<(GssContext, Vec<u8>), Error>)
    requires
        forall|
            x: Vec<u8>,
            s: &[EncryptionKey],
            k: Option<&[u32]>,
            n: Option<&PrincipalName>,
            m: Option<&str>,
        | #[trigger]
            call_requires(verify, (&x, s, k, n, m)),
        forall|k: EncryptionKey, x: Vec<u8>| #[trigger] call_requires(open, (&k, &x)),
        forall|k: EncryptionKey, t: u32, u: u32| #[trigger] call_requires(answer, (&k, t, u)),
        forall|k: EncryptionKey, u: u32, x: Vec<u8>, m: Vec<u8>| #[trigger]
            call_requires(check, (&k, u, &x, &m)),
        forall|k: EncryptionKey, u: u32, x: Vec<u8>| #[trigger] call_requires(mac, (&k, u, &x)),
    ensures
        negotiation_result(
            token@,
            keys,
            None,
            bindings,
            server,
            realm,
            verify,
            open,
            answer,
            check,
            mac,
            r,
        ),
{
    spnego_accept_kt(
        token,
        keys,
        None,
        bindings,
        server,
        realm,
        verify,
        open,
        answer,
        check,
        mac,
    )
}

/// The two sides make checksums under different key usages, and each verifies
/// under that of the other.
pub proof fn law_sign_usages_differ(initiator: bool)
    ensures
        usage_of(initiator) != usage_of(!initiator),
        peer_usage(initiator) == usage_of(!initiator),
        usage_of(true) == 25,
        usage_of(false) == 23,
{
}

/// A checksum token is taken only where its checksum is right and its sequence
/// number is not refused; one that is refused leaves the context as it is.
pub proof fn law_wrong_mic_is_refused<
    C: Fn(&EncryptionKey, u32, &Vec<u8>, &Vec<u8>) -> CksumVerdict,
>(c: GssContext, d: GssContext, data: Seq<u8>, token: Seq<u8>, check: C, r: Result<(), Error>)
    requires
        mic_result(c, d, data, token, check, r),
    ensures
        (forall|k: EncryptionKey, x: &Vec<u8>, m: &Vec<u8>, v: CksumVerdict| #[trigger]
            call_ensures(check, (&k, peer_usage(c.initiator), x, m), v) ==> v
                != CksumVerdict::Good) ==> r is Err,
        r is Err ==> d == c,
        r is Ok ==> c.same_but_window(d),
{
    let t = choose|t: Result<MicToken, Error>|
        {
            &&& #[trigger] mic_token_result(token, c.initiator, t)
            &&& match t {
                Err(e) => r == Err::<(), Error>(e) && d == c,
                Ok(w) => match c.key_for(w.flags) {
                    None => (r matches Err(x) && inner_error(x, "gss acceptor subkey"@)) && d == c,
                    Some(k) => exists|verdict: CksumVerdict|
                        {
                            &&& #[trigger] judged_mic(
                                check,
                                k,
                                peer_usage(c.initiator),
                                data,
                                w,
                                verdict,
                            )
                            &&& match cksum_result(verdict) {
                                Err(e) => r == Err::<(), Error>(e) && d == c,
                                Ok(()) => match seq_step(c.seq_state(), w.seq) {
                                    None => r == Err::<(), Error>(Error::Sequence) && d == c,
                                    Some(st) => r is Ok && c.same_but_window(d) && d.wf()
                                        && d.seq_state() == st,
                                },
                            }
                        },
                },
            }
        };
    if let Ok(w) = t {
        if let Some(k) = c.key_for(w.flags) {
            let verdict = choose|verdict: CksumVerdict|
                {
                    &&& #[trigger] judged_mic(
                        check,
                        k,
                        peer_usage(c.initiator),
                        data,
                        w,
                        verdict,
                    )
                    &&& match cksum_result(verdict) {
                        Err(e) => r == Err::<(), Error>(e) && d == c,
                        Ok(()) => match seq_step(c.seq_state(), w.seq) {
                            None => r == Err::<(), Error>(Error::Sequence) && d == c,
                            Some(st) => r is Ok && c.same_but_window(d) && d.wf() && d.seq_state()
                                == st,
                        },
                    }
                };
            if r is Ok {
                assert(verdict == CksumVerdict::Good);
            }
        }
    }
}

/// The Kerberos token of an offer is taken as it is where it is framed, and is
/// framed as an AP-REQ where it is not.
pub proof fn law_offer_is_framed(v: NegView)
    ensures
        v.mech_token.len() > 0 && v.mech_token[0] == 0x60 ==> offered_token(v) == v.mech_token,
        v.mech_token.len() == 0 || v.mech_token[0] != 0x60 ==> offered_token(v) == wrapped_app(
            seq![1u8, 0],
            v.mech_token,
        ),
{
    assert(TOK_AP_REQ@ =~= seq![1u8, 0]);
}

/// A negotiation that cannot be read, or does not offer Kerberos, is refused.
pub proof fn law_other_offers_are_refused<
    V: Fn(
        &Vec<u8>,
        &[EncryptionKey],
        Option<&[u32]>,
        Option<&PrincipalName>,
        Option<&str>,
    ) -> Result<VerifiedReq, VerifyError>,
    O: Fn(&EncryptionKey, &Vec<u8>) -> Option<DelegatedFacts>,
    P: Fn(&EncryptionKey, u32, u32) -> Result<Vec<u8>, Error>,
    C: Fn(&EncryptionKey, u32, &Vec<u8>, &Vec<u8>) -> CksumVerdict,
    M: Fn(&EncryptionKey, u32, &Vec<u8>) -> Result<Vec<u8>, Error>,
>(
    token: Seq<u8>,
    keys: &[EncryptionKey],
    kvnos: Option<&[u32]>,
    bindings: Option<&ChannelBindings>,
    server: Option<&PrincipalName>,
    realm: Option<&str>,
    verify: V,
    open: O,
    answer: P,
    check: C,
    mac: M,
    r: Result<(GssContext, Vec<u8>), Error>,
)
    requires
        negotiation_result(
            token,
            keys,
            kvnos,
            bindings,
            server,
            realm,
            verify,
            open,
            answer,
            check,
            mac,
            r,
        ),
        neg_init(token) matches Some(v) ==> list_has_krb5(v.mech_list) != Some(true),
    ensures
        r == Err::<(GssContext, Vec<u8>), Error>(Error::Truncated),
{
}

/// A checksum over the list that came with an offer has to be right: where none
/// ever is, the offer is refused.
pub proof fn law_wrong_list_checksum_is_refused<
    C: Fn(&EncryptionKey, u32, &Vec<u8>, &Vec<u8>) -> CksumVerdict,
    M: Fn(&EncryptionKey, u32, &Vec<u8>) -> Result<Vec<u8>, Error>,
>(
    c: GssContext,
    ap_rep: Option<Vec<u8>>,
    v: NegView,
    check: C,
    mac: M,
    r: Result<(GssContext, Vec<u8>), Error>,
)
    requires
        listed_result(c, ap_rep, v, check, mac, r),
        v.mic is Some,
        forall|k: EncryptionKey, x: &Vec<u8>, m: &Vec<u8>, w: CksumVerdict| #[trigger]
            call_ensures(check, (&k, peer_usage(c.initiator), x, m), w) ==> w
                != CksumVerdict::Good,
    ensures
        r is Err,
{
    let tok = v.mic->0;
    let (d, m) = choose|d: GssContext, m: Result<(), Error>|
        {
            &&& #[trigger] mic_result(c, d, v.mech_list, tok, check, m)
            &&& match m {
                Err(e) => r matches Err(x) && x == e,
                Ok(()) => response_result(d, ap_rep, v.mech_list, mac, r),
            }
        };
    law_wrong_mic_is_refused(c, d, v.mech_list, tok, check, m);
}

} // verus!
