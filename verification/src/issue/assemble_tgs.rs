//! Putting the reply to a TGS request together: ticket, padata and the encrypted
//! part. What is made and encrypted under a key comes in as functions.

use crate::ad::s4u::X509User;
use crate::bytes::copy;
use crate::error::Error;
use crate::flags::Flags;
use crate::issue::answer::working_padata;
use crate::issue::answer_tgs::TgsIssue;
use crate::issue::assemble::{
    honour_options, honoured, inner_padata, is_enc_padata, lemma_minted_part, parts_agree,
    proof_result, reply_padata, reply_padata_result, reply_proof, sealed_in_reply,
    sealed_in_ticket, strengthen, strengthened_result, KdcRep,
};
use crate::issue::header::HeaderTgt;
use crate::issue::mint::{is_part, mint_result, mint_ticket, MintTerms, PacSigner};
use crate::issue::reply::{
    enc_rep_part, is_tgs_plan, EncKdcRepPart, FastFacts, ReplyKey, TgsPlan, KU_TGS_REP_SESSION,
    KU_TGS_REP_SUBKEY,
};
use crate::issue::tgs_req::{TgsRequest, TgsSubject};
use crate::issue::times::spec_omit_start;
use crate::msg::{
    address_octets, copy_addresses, copy_listed, key_octets, listed_octets, AuthDatum,
    EncTicketPart, EncryptedData, EncryptionKey, PaData, Ticket, TransitedEncoding, MSG_TGS_REP,
    PVNO,
};
use crate::name::{copy_strings, PrincipalName};
use crate::store::{attr, attr_set, Policy, Principal, KDB_NO_AUTH_DATA_REQUIRED};
use crate::text::views;
use vstd::prelude::*;
use vstd::string::*;

verus! {

/// An answered TGS request.
#[derive(Clone, Debug, PartialEq, Eq)]
pub struct IssuedTgs {
    /// The reply.
    pub rep: KdcRep,
    /// The session key, as it stands in the ticket and in the reply.
    pub session_key: EncryptionKey,
}

/// What a TGS ticket is minted of.
pub open spec fn is_tgs_terms(
    t: MintTerms,
    i: TgsIssue,
    realm: Seq<char>,
    extra: Vec<AuthDatum>,
) -> bool {
    &&& key_octets(t.service_key) == key_octets(i.service_key)
    &&& key_octets(t.kdc_key) == key_octets(i.kdc_key)
    &&& *t.krbtgt == *i.krbtgt
    &&& key_octets(t.krbtgt_key) == i.krbtgt.keys@[i.krbtgt_key as int].octets()
    &&& views(t.indicators@) == views(i.checked.indicators@)
    &&& key_octets(t.session) == key_octets(i.session)
    &&& t.srealm@ == realm
    &&& t.sname@ == i.plan.sname@
    &&& t.crealm@ == i.subject.crealm@
    &&& t.cname@ == i.subject.cname@
    &&& t.times == i.times
    &&& t.transited.tr_type == i.checked.transited.tr_type
    &&& t.transited.contents@ == i.checked.transited.contents@
    &&& address_octets(t.caddr) == address_octets(*i.plan.ticket_caddr)
    &&& t.extra == extra
    &&& t.service_etype == i.checked.keys.ticket_etype
    &&& t.kvno == i.checked.keys.ticket_kvno
    &&& t.no_auth_data == (!i.subject.s4u2self && attr_set(
        i.server.attributes,
        KDB_NO_AUTH_DATA_REQUIRED,
    ))
    &&& t.include_pac == i.plan.include_pac
}

/// What a TGS ticket is minted of.
pub fn tgs_terms<'a>(i: &TgsIssue<'a>, realm: &str, extra: Vec<AuthDatum>) -> (t: MintTerms<'a>)
    requires
        i.krbtgt_key < i.krbtgt.keys@.len(),
    ensures
        is_tgs_terms(t, *i, realm@, extra),
{
    MintTerms {
        service_key: i.service_key.copy(),
        kdc_key: i.kdc_key.copy(),
        krbtgt: i.krbtgt,
        krbtgt_key: i.krbtgt.keys[i.krbtgt_key].to_key(),
        indicators: copy_strings(i.checked.indicators.as_slice()),
        session: i.session.copy(),
        srealm: realm.to_owned(),
        sname: i.plan.sname.copy(),
        crealm: i.subject.crealm.as_str().to_owned(),
        cname: i.subject.cname.copy(),
        times: i.times,
        transited: TransitedEncoding {
            tr_type: i.checked.transited.tr_type,
            contents: copy(i.checked.transited.contents.as_slice()),
        },
        caddr: copy_addresses(i.plan.ticket_caddr),
        extra,
        service_etype: i.checked.keys.ticket_etype,
        kvno: i.checked.keys.ticket_kvno,
        no_auth_data: !i.subject.s4u2self && attr(i.server, KDB_NO_AUTH_DATA_REQUIRED),
        include_pac: i.plan.include_pac,
    }
}

/// `p` is the encrypted part of a TGS reply.
pub open spec fn is_tgs_part(
    p: EncKdcRepPart,
    i: TgsIssue,
    realm: Seq<char>,
    enc_padata: Option<Vec<PaData>>,
) -> bool {
    &&& key_octets(p.key) == key_octets(i.session)
    &&& p.last_req@ == seq![(0i32, 0u32)]
    &&& p.nonce == i.plan.nonce
    &&& p.key_expiration is None
    &&& p.flags == i.times.flags
    &&& p.authtime == i.times.authtime
    &&& p.starttime == spec_omit_start(i.times.starttime, i.times.authtime)
    &&& p.endtime == i.times.endtime
    &&& p.renew_till == i.times.renew_till
    &&& p.srealm@ == realm
    &&& p.sname@ == i.plan.sname@
    &&& address_octets(p.caddr) == listed_octets(i.plan.reply_caddr)
    &&& p.encrypted_pa_data == enc_padata
}

/// `seal` gave `c` for the encrypted part of a TGS reply.
pub open spec fn tgs_part_sealed<
    E: Fn(&EncryptionKey, u32, &EncKdcRepPart) -> Result<Vec<u8>, Error>,
>(
    i: TgsIssue,
    realm: Seq<char>,
    enc_padata: Option<Vec<PaData>>,
    reply_key: EncryptionKey,
    usage: u32,
    seal: E,
    p: EncKdcRepPart,
    c: Result<Vec<u8>, Error>,
) -> bool {
    is_tgs_part(p, i, realm, enc_padata) && call_ensures(seal, (&reply_key, usage, &p), c)
}

/// `v` is the TGS reply around an encrypted part.
pub open spec fn is_tgs_rep(
    v: KdcRep,
    i: TgsIssue,
    ticket: Ticket,
    padata: Option<Vec<PaData>>,
    reply_key: EncryptionKey,
    cipher: Vec<u8>,
) -> bool {
    &&& v.pvno == PVNO
    &&& v.msg_type == MSG_TGS_REP
    &&& v.padata == padata
    &&& v.crealm@ == i.plan.rep_crealm@
    &&& v.cname@ == i.plan.rep_cname@
    &&& v.ticket == ticket
    &&& v.enc_part.etype == reply_key.keytype
    &&& v.enc_part.kvno is None
    &&& v.enc_part.cipher == cipher
}

/// What putting a TGS reply together comes to: its encrypted part is encrypted
/// first, then the padata go where they go.
pub open spec fn tgs_assembled<
    F: Fn(&EncryptionKey, &Ticket, &PrincipalName, &String) -> Result<Vec<u8>, Error>,
    W: Fn(
        &EncryptionKey,
        &Vec<PaData>,
        &Option<EncryptionKey>,
        u32,
        &Vec<u8>,
    ) -> Result<PaData, Error>,
    E: Fn(&EncryptionKey, u32, &EncKdcRepPart) -> Result<Vec<u8>, Error>,
>(
    i: TgsIssue,
    ticket: Ticket,
    realm: Seq<char>,
    list: Seq<PaData>,
    enc_padata: Option<Vec<PaData>>,
    fast: Option<&FastFacts>,
    strengthening: Option<EncryptionKey>,
    reply_key: EncryptionKey,
    usage: u32,
    finish: F,
    layer: W,
    seal: E,
    r: Result<KdcRep, Error>,
) -> bool {
    exists|p: EncKdcRepPart, c: Result<Vec<u8>, Error>| #[trigger]
        tgs_part_sealed(i, realm, enc_padata, reply_key, usage, seal, p, c) && (match c {
            Err(e) => r matches Err(x) && x == e,
            Ok(cipher) => exists|l: Result<Option<Vec<PaData>>, Error>|
                {
                    &&& #[trigger] reply_padata_result(
                        list,
                        fast,
                        strengthening,
                        ticket,
                        i.subject.cname,
                        i.subject.crealm,
                        finish,
                        layer,
                        l,
                    )
                    &&& match l {
                        Err(e) => r matches Err(x) && x == e,
                        Ok(padata) => r matches Ok(v) && is_tgs_rep(
                            v,
                            i,
                            ticket,
                            padata,
                            reply_key,
                            cipher,
                        ),
                    }
                },
        })
}

/// Puts a TGS reply together.
pub fn assemble_tgs_reply<
    F: Fn(&EncryptionKey, &Ticket, &PrincipalName, &String) -> Result<Vec<u8>, Error>,
    W: Fn(
        &EncryptionKey,
        &Vec<PaData>,
        &Option<EncryptionKey>,
        u32,
        &Vec<u8>,
    ) -> Result<PaData, Error>,
    E: Fn(&EncryptionKey, u32, &EncKdcRepPart) -> Result<Vec<u8>, Error>,
>(
    i: &TgsIssue,
    ticket: Ticket,
    realm: &str,
    list: Vec<PaData>,
    enc_padata: Option<Vec<PaData>>,
    fast: Option<&FastFacts>,
    strengthening: &Option<EncryptionKey>,
    reply_key: &EncryptionKey,
    usage: u32,
    finish: &F,
    layer: &W,
    seal: &E,
) -> (r: Result<KdcRep, Error>)
    requires
        forall|a: EncryptionKey, t: Ticket, n: PrincipalName, s: String| #[trigger]
            call_requires(*finish, (&a, &t, &n, &s)),
        forall|a: EncryptionKey, l: Vec<PaData>, k: Option<EncryptionKey>, n: u32, d: Vec<u8>|
            #[trigger] call_requires(*layer, (&a, &l, &k, n, &d)),
        forall|k: EncryptionKey, u: u32, p: EncKdcRepPart| #[trigger]
            call_requires(*seal, (&k, u, &p)),
    ensures
        tgs_assembled(
            *i,
            ticket,
            realm@,
            list@,
            enc_padata,
            fast,
            *strengthening,
            *reply_key,
            usage,
            *finish,
            *layer,
            *seal,
            r,
        ),
{
    let p = enc_rep_part(
        i.session.copy(),
        i.plan.nonce,
        i.times,
        realm.to_owned(),
        i.plan.sname.copy(),
        enc_padata,
        copy_listed(i.plan.reply_caddr),
        None,
    );
    let c = seal(reply_key, usage, &p);
    proof {
        assert(tgs_part_sealed(*i, realm@, enc_padata, *reply_key, usage, *seal, p, c));
    }
    let cipher = match c {
        Err(e) => {
            return Err(e);
        },
        Ok(x) => x,
    };
    let l = reply_padata(
        list,
        fast,
        strengthening,
        &ticket,
        &i.subject.cname,
        &i.subject.crealm,
        finish,
        layer,
    );
    proof {
        assert(reply_padata_result(
            list@,
            fast,
            *strengthening,
            ticket,
            i.subject.cname,
            i.subject.crealm,
            *finish,
            *layer,
            l,
        ));
    }
    match l {
        Err(e) => Err(e),
        Ok(padata) => Ok(
            KdcRep {
                pvno: PVNO,
                msg_type: MSG_TGS_REP,
                padata,
                crealm: i.plan.rep_crealm.as_str().to_owned(),
                cname: i.plan.rep_cname.copy(),
                ticket,
                enc_part: EncryptedData { etype: reply_key.keytype, kvno: None, cipher },
            },
        ),
    }
}

/// The key of a TGS reply and its usage: the subkey where there is one, else the
/// session key of the presented ticket.
pub open spec fn tgs_reply_key(subkey: Option<EncryptionKey>, session: EncryptionKey) -> (
    EncryptionKey,
    u32,
) {
    match subkey {
        Some(k) => (k, KU_TGS_REP_SUBKEY),
        None => (session, KU_TGS_REP_SESSION),
    }
}

/// The padata of the answer to a request on behalf of a user.
pub open spec fn s4u_padata(s4u: Option<(PaData, Option<PaData>)>) -> Seq<PaData> {
    match s4u {
        Some(t) => seq![t.0],
        None => Seq::empty(),
    }
}

/// What goes inside the answer to a request on behalf of a user.
pub open spec fn s4u_inner(s4u: Option<(PaData, Option<PaData>)>) -> Option<PaData> {
    match s4u {
        Some(t) => t.1,
        None => None,
    }
}

/// What a TGS reply comes to whose ticket and reply key are there.
pub open spec fn tgs_keyed_result<
    P: Fn(&EncryptionKey, &Vec<u8>) -> Result<Vec<PaData>, Error>,
    H: Fn(&Vec<u8>) -> Option<Vec<u8>>,
    F: Fn(&EncryptionKey, &Ticket, &PrincipalName, &String) -> Result<Vec<u8>, Error>,
    W: Fn(
        &EncryptionKey,
        &Vec<PaData>,
        &Option<EncryptionKey>,
        u32,
        &Vec<u8>,
    ) -> Result<PaData, Error>,
    E: Fn(&EncryptionKey, u32, &EncKdcRepPart) -> Result<Vec<u8>, Error>,
>(
    i: TgsIssue,
    realm: Seq<char>,
    fast: Option<&FastFacts>,
    h: HeaderTgt,
    asked: Seq<PaData>,
    raw: Vec<u8>,
    s4u: Option<(PaData, Option<PaData>)>,
    ticket: Ticket,
    key: EncryptionKey,
    strengthening: Option<EncryptionKey>,
    prove: P,
    honour: H,
    finish: F,
    layer: W,
    seal: E,
    r: Result<IssuedTgs, Error>,
) -> bool {
    exists|p: Result<Option<Vec<PaData>>, Error>| #[trigger]
        proof_result(i.plan.want_enc_pa, key, raw, prove, p) && (match p {
            Err(e) => r matches Err(x) && x == e,
            Ok(proof_data) => exists|
                rbcd: Option<Vec<u8>>,
                inner: Option<Vec<PaData>>,
                v: Result<KdcRep, Error>,
            |
                {
                    &&& #[trigger] honoured(asked, honour, rbcd)
                    &&& is_enc_padata(inner, s4u_inner(s4u), proof_data, rbcd)
                    &&& #[trigger] tgs_assembled(
                        i,
                        ticket,
                        realm,
                        s4u_padata(s4u),
                        inner,
                        fast,
                        strengthening,
                        key,
                        tgs_reply_key(h.authenticator.subkey, h.enc_tkt.key).1,
                        finish,
                        layer,
                        seal,
                        v,
                    )
                    &&& match v {
                        Err(e) => r matches Err(x) && x == e,
                        Ok(rep) => r matches Ok(y) && y.rep == rep && key_octets(y.session_key)
                            == key_octets(i.session),
                    }
                },
        })
}

/// `u` is the answer to a request on behalf of a user: `user` gave it for the
/// PA-S4U-X509-USER that named the user, under the keys of the header; there is none
/// where no such datum did.
pub open spec fn user_answered<
    U: Fn(
        &X509User,
        &EncryptionKey,
        &Option<EncryptionKey>,
    ) -> Result<(PaData, Option<PaData>), Error>,
>(
    s: TgsSubject,
    h: HeaderTgt,
    user: U,
    u: Result<Option<(PaData, Option<PaData>)>, Error>,
) -> bool {
    match s.s4u_x509 {
        None => u matches Ok(o) && o is None,
        Some(x) => exists|v: Result<(PaData, Option<PaData>), Error>| #[trigger]
            call_ensures(user, (&x, &h.enc_tkt.key, &h.authenticator.subkey), v) && (match v {
                Err(e) => u matches Err(y) && y == e,
                Ok(t) => u matches Ok(Some(y)) && y == t,
            }),
    }
}

/// Answers a request on behalf of a user, where it is one.
fn answer_user<
    U: Fn(
        &X509User,
        &EncryptionKey,
        &Option<EncryptionKey>,
    ) -> Result<(PaData, Option<PaData>), Error>,
>(s: &TgsSubject, h: &HeaderTgt, user: &U) -> (u: Result<Option<(PaData, Option<PaData>)>, Error>)
    requires
        forall|x: X509User, k: EncryptionKey, s: Option<EncryptionKey>| #[trigger]
            call_requires(*user, (&x, &k, &s)),
    ensures
        user_answered(*s, *h, *user, u),
{
    match &s.s4u_x509 {
        None => Ok(None),
        Some(x) => {
            let v = user(x, &h.enc_tkt.key, &h.authenticator.subkey);
            assert(call_ensures(*user, (x, &h.enc_tkt.key, &h.authenticator.subkey), v));
            match v {
                Err(e) => Err(e),
                Ok(t) => Ok(Some(t)),
            }
        },
    }
}

/// What a TGS reply comes to whose ticket was minted.
pub open spec fn tgs_minted_result<
    U: Fn(
        &X509User,
        &EncryptionKey,
        &Option<EncryptionKey>,
    ) -> Result<(PaData, Option<PaData>), Error>,
    D: Fn(i32) -> Result<EncryptionKey, Error>,
    C: Fn(&EncryptionKey, &EncryptionKey, &str, &str) -> Result<EncryptionKey, Error>,
    P: Fn(&EncryptionKey, &Vec<u8>) -> Result<Vec<PaData>, Error>,
    H: Fn(&Vec<u8>) -> Option<Vec<u8>>,
    F: Fn(&EncryptionKey, &Ticket, &PrincipalName, &String) -> Result<Vec<u8>, Error>,
    W: Fn(
        &EncryptionKey,
        &Vec<PaData>,
        &Option<EncryptionKey>,
        u32,
        &Vec<u8>,
    ) -> Result<PaData, Error>,
    E: Fn(&EncryptionKey, u32, &EncKdcRepPart) -> Result<Vec<u8>, Error>,
>(
    i: TgsIssue,
    realm: Seq<char>,
    fast: Option<&FastFacts>,
    h: HeaderTgt,
    asked: Seq<PaData>,
    raw: Vec<u8>,
    ticket: Ticket,
    user: U,
    draw: D,
    combine: C,
    prove: P,
    honour: H,
    finish: F,
    layer: W,
    seal: E,
    r: Result<IssuedTgs, Error>,
) -> bool {
    exists|u: Result<Option<(PaData, Option<PaData>)>, Error>| #[trigger]
        user_answered(i.subject, h, user, u) && (match u {
            Err(e) => r matches Err(x) && x == e,
            Ok(s4u) => tgs_answered_result(
                i,
                realm,
                fast,
                h,
                asked,
                raw,
                s4u,
                ticket,
                draw,
                combine,
                prove,
                honour,
                finish,
                layer,
                seal,
                r,
            ),
        })
}

/// What a TGS reply comes to whose ticket and answer for a user are there.
pub open spec fn tgs_answered_result<
    D: Fn(i32) -> Result<EncryptionKey, Error>,
    C: Fn(&EncryptionKey, &EncryptionKey, &str, &str) -> Result<EncryptionKey, Error>,
    P: Fn(&EncryptionKey, &Vec<u8>) -> Result<Vec<PaData>, Error>,
    H: Fn(&Vec<u8>) -> Option<Vec<u8>>,
    F: Fn(&EncryptionKey, &Ticket, &PrincipalName, &String) -> Result<Vec<u8>, Error>,
    W: Fn(
        &EncryptionKey,
        &Vec<PaData>,
        &Option<EncryptionKey>,
        u32,
        &Vec<u8>,
    ) -> Result<PaData, Error>,
    E: Fn(&EncryptionKey, u32, &EncKdcRepPart) -> Result<Vec<u8>, Error>,
>(
    i: TgsIssue,
    realm: Seq<char>,
    fast: Option<&FastFacts>,
    h: HeaderTgt,
    asked: Seq<PaData>,
    raw: Vec<u8>,
    s4u: Option<(PaData, Option<PaData>)>,
    ticket: Ticket,
    draw: D,
    combine: C,
    prove: P,
    honour: H,
    finish: F,
    layer: W,
    seal: E,
    r: Result<IssuedTgs, Error>,
) -> bool {
    let key = tgs_reply_key(h.authenticator.subkey, h.enc_tkt.key).0;
    exists|k: Result<(EncryptionKey, Option<EncryptionKey>), Error>| #[trigger]
        reply_key_made(key, fast is Some, draw, combine, k) && (
        match k {
            Err(e) => r matches Err(x) && x == e,
            Ok(keys) => tgs_keyed_result(
                i,
                realm,
                fast,
                h,
                asked,
                raw,
                s4u,
                ticket,
                keys.0,
                keys.1,
                prove,
                honour,
                finish,
                layer,
                seal,
                r,
            ),
        })
}

/// What the key of a TGS reply becomes: under FAST it is strengthened with a fresh key
/// of its own type. It is known by its octets.
pub open spec fn reply_key_made<
    D: Fn(i32) -> Result<EncryptionKey, Error>,
    C: Fn(&EncryptionKey, &EncryptionKey, &str, &str) -> Result<EncryptionKey, Error>,
>(
    key: EncryptionKey,
    fast: bool,
    draw: D,
    combine: C,
    k: Result<(EncryptionKey, Option<EncryptionKey>), Error>,
) -> bool {
    exists|own: EncryptionKey|
        key_octets(own) == key_octets(key) && #[trigger] strengthened_result(
            own,
            fast,
            key.keytype,
            draw,
            combine,
            k,
        )
}

/// `t` is what minting a TGS ticket comes to.
pub open spec fn tgs_ticket_minted<
    A: Fn(
        Vec<AuthDatum>,
        &Vec<String>,
        &EncryptionKey,
        &Principal,
        &EncryptionKey,
        &EncTicketPart,
    ) -> Result<Vec<AuthDatum>, Error>,
    B: Fn(&Vec<u8>) -> Result<Vec<AuthDatum>, Error>,
    S: PacSigner,
    T: Fn(&EncryptionKey, u32, &EncTicketPart) -> Result<Vec<u8>, Error>,
>(
    i: TgsIssue,
    realm: Seq<char>,
    extra: Vec<AuthDatum>,
    indicate: A,
    wrap: B,
    sign: S,
    seal_ticket: T,
    terms: MintTerms,
    t: Result<Ticket, Error>,
) -> bool {
    is_tgs_terms(terms, i, realm, extra) && mint_result(
        indicate,
        wrap,
        sign,
        seal_ticket,
        terms,
        t,
    )
}

/// What a TGS request that was laid out is answered with: the ticket is minted,
/// then the answer for a user and the reply key are made, then the reply is put
/// together.
pub open spec fn tgs_reply_result<
    A: Fn(
        Vec<AuthDatum>,
        &Vec<String>,
        &EncryptionKey,
        &Principal,
        &EncryptionKey,
        &EncTicketPart,
    ) -> Result<Vec<AuthDatum>, Error>,
    B: Fn(&Vec<u8>) -> Result<Vec<AuthDatum>, Error>,
    S: PacSigner,
    T: Fn(&EncryptionKey, u32, &EncTicketPart) -> Result<Vec<u8>, Error>,
    U: Fn(
        &X509User,
        &EncryptionKey,
        &Option<EncryptionKey>,
    ) -> Result<(PaData, Option<PaData>), Error>,
    D: Fn(i32) -> Result<EncryptionKey, Error>,
    C: Fn(&EncryptionKey, &EncryptionKey, &str, &str) -> Result<EncryptionKey, Error>,
    P: Fn(&EncryptionKey, &Vec<u8>) -> Result<Vec<PaData>, Error>,
    H: Fn(&Vec<u8>) -> Option<Vec<u8>>,
    F: Fn(&EncryptionKey, &Ticket, &PrincipalName, &String) -> Result<Vec<u8>, Error>,
    W: Fn(
        &EncryptionKey,
        &Vec<PaData>,
        &Option<EncryptionKey>,
        u32,
        &Vec<u8>,
    ) -> Result<PaData, Error>,
    E: Fn(&EncryptionKey, u32, &EncKdcRepPart) -> Result<Vec<u8>, Error>,
>(
    i: TgsIssue,
    realm: Seq<char>,
    fast: Option<&FastFacts>,
    h: HeaderTgt,
    asked: Seq<PaData>,
    raw: Vec<u8>,
    extra_ad: Vec<AuthDatum>,
    indicate: A,
    wrap: B,
    sign: S,
    seal_ticket: T,
    user: U,
    draw: D,
    combine: C,
    prove: P,
    honour: H,
    finish: F,
    layer: W,
    seal: E,
    r: Result<IssuedTgs, Error>,
) -> bool {
    exists|terms: MintTerms, t: Result<Ticket, Error>|
        {
            &&& #[trigger] tgs_ticket_minted(
                i,
                realm,
                extra_ad,
                indicate,
                wrap,
                sign,
                seal_ticket,
                terms,
                t,
            )
            &&& match t {
                Err(e) => r matches Err(x) && x == e,
                Ok(ticket) => tgs_minted_result(
                    i,
                    realm,
                    fast,
                    h,
                    asked,
                    raw,
                    ticket,
                    user,
                    draw,
                    combine,
                    prove,
                    honour,
                    finish,
                    layer,
                    seal,
                    r,
                ),
            }
        }
}

/// Answers a TGS request that was laid out. `indicate`, `wrap`, `sign` and
/// `seal_ticket` serve the ticket; `user` answers the PA-S4U-X509-USER of a request on
/// behalf of a user, under the session key of the presented ticket or the subkey; `draw` makes a fresh key of
/// a type and `combine` combines two keys; `prove` proves that the reply answers the
/// request `raw`; `honour` encodes the PAC option that is honoured; `seal` encrypts
/// the reply's part; `finish` binds a FAST layer to the ticket and `layer` makes it.
/// The reply is under the subkey of the authenticator, or under the session key of the
/// presented ticket.
pub fn issue_tgs_reply<
    A: Fn(
        Vec<AuthDatum>,
        &Vec<String>,
        &EncryptionKey,
        &Principal,
        &EncryptionKey,
        &EncTicketPart,
    ) -> Result<Vec<AuthDatum>, Error>,
    B: Fn(&Vec<u8>) -> Result<Vec<AuthDatum>, Error>,
    S: PacSigner,
    T: Fn(&EncryptionKey, u32, &EncTicketPart) -> Result<Vec<u8>, Error>,
    U: Fn(
        &X509User,
        &EncryptionKey,
        &Option<EncryptionKey>,
    ) -> Result<(PaData, Option<PaData>), Error>,
    D: Fn(i32) -> Result<EncryptionKey, Error>,
    C: Fn(&EncryptionKey, &EncryptionKey, &str, &str) -> Result<EncryptionKey, Error>,
    P: Fn(&EncryptionKey, &Vec<u8>) -> Result<Vec<PaData>, Error>,
    H: Fn(&Vec<u8>) -> Option<Vec<u8>>,
    F: Fn(&EncryptionKey, &Ticket, &PrincipalName, &String) -> Result<Vec<u8>, Error>,
    W: Fn(
        &EncryptionKey,
        &Vec<PaData>,
        &Option<EncryptionKey>,
        u32,
        &Vec<u8>,
    ) -> Result<PaData, Error>,
    E: Fn(&EncryptionKey, u32, &EncKdcRepPart) -> Result<Vec<u8>, Error>,
>(
    i: &TgsIssue,
    h: &HeaderTgt,
    realm: &str,
    fast: Option<&FastFacts>,
    outer: &[PaData],
    raw: &Vec<u8>,
    extra_ad: Vec<AuthDatum>,
    indicate: &A,
    wrap: &B,
    sign: &S,
    seal_ticket: &T,
    user: &U,
    draw: &D,
    combine: &C,
    prove: &P,
    honour: &H,
    finish: &F,
    layer: &W,
    seal: &E,
) -> (r: Result<IssuedTgs, Error>)
    requires
        i.krbtgt_key < i.krbtgt.keys@.len(),
        forall|
            v: Vec<AuthDatum>,
            i: Vec<String>,
            k: EncryptionKey,
            p: Principal,
            g: EncryptionKey,
            x: EncTicketPart,
        | #[trigger]
            call_requires(*indicate, (v, &i, &k, &p, &g, &x)),
        forall|x: Vec<u8>| #[trigger] call_requires(*wrap, (&x,)),
        sign.ready(),
        forall|k: EncryptionKey, u: u32, x: EncTicketPart| #[trigger]
            call_requires(*seal_ticket, (&k, u, &x)),
        forall|x: X509User, k: EncryptionKey, s: Option<EncryptionKey>| #[trigger]
            call_requires(*user, (&x, &k, &s)),
        forall|e: i32| #[trigger] call_requires(*draw, (e,)),
        forall|x: Vec<u8>| #[trigger] call_requires(*honour, (&x,)),
        forall|a: EncryptionKey, b: EncryptionKey, p: &str, q: &str| #[trigger]
            call_requires(*combine, (&a, &b, p, q)),
        forall|k: EncryptionKey, b: Vec<u8>| #[trigger] call_requires(*prove, (&k, &b)),
        forall|a: EncryptionKey, t: Ticket, n: PrincipalName, s: String| #[trigger]
            call_requires(*finish, (&a, &t, &n, &s)),
        forall|a: EncryptionKey, l: Vec<PaData>, k: Option<EncryptionKey>, n: u32, d: Vec<u8>|
            #[trigger] call_requires(*layer, (&a, &l, &k, n, &d)),
        forall|k: EncryptionKey, u: u32, p: EncKdcRepPart| #[trigger]
            call_requires(*seal, (&k, u, &p)),
    ensures
        tgs_reply_result(
            *i,
            realm@,
            fast,
            *h,
            working_padata(fast, outer)@,
            *raw,
            extra_ad,
            *indicate,
            *wrap,
            *sign,
            *seal_ticket,
            *user,
            *draw,
            *combine,
            *prove,
            *honour,
            *finish,
            *layer,
            *seal,
            r,
        ),
{
    let ghost extra0 = extra_ad;
    let asked: &[PaData] = match fast {
        Some(f) => f.padata,
        None => outer,
    };
    let terms = tgs_terms(i, realm, extra_ad);
    let ghost t0 = terms;
    let t = mint_ticket(terms, indicate, wrap, sign, seal_ticket);
    proof {
        assert(tgs_ticket_minted(
            *i,
            realm@,
            extra0,
            *indicate,
            *wrap,
            *sign,
            *seal_ticket,
            t0,
            t,
        ));
    }
    let ticket = match t {
        Err(e) => {
            return Err(e);
        },
        Ok(x) => x,
    };
    let u = answer_user(&i.subject, h, user);
    proof {
        assert(user_answered(i.subject, *h, *user, u));
    }
    let s4u = match u {
        Err(e) => {
            return Err(e);
        },
        Ok(x) => x,
    };
    let ghost on_behalf = s4u;
    let (key, usage): (EncryptionKey, u32) = match &h.authenticator.subkey {
        Some(k) => (k.copy(), KU_TGS_REP_SUBKEY),
        None => (h.enc_tkt.key.copy(), KU_TGS_REP_SESSION),
    };
    let ghost own = key;
    let etype: i32 = key.keytype;
    let k = strengthen(key, fast.is_some(), etype, draw, combine);
    proof {
        assert(strengthened_result(own, fast is Some, etype, *draw, *combine, k));
        assert(reply_key_made(
            tgs_reply_key(h.authenticator.subkey, h.enc_tkt.key).0,
            fast is Some,
            *draw,
            *combine,
            k,
        ));
    }
    let (reply_key, sk) = match k {
        Err(e) => {
            return Err(e);
        },
        Ok(x) => x,
    };
    let p = reply_proof(i.plan.want_enc_pa, &reply_key, raw, prove);
    proof {
        assert(proof_result(i.plan.want_enc_pa, reply_key, *raw, *prove, p));
    }
    let proof_data = match p {
        Err(e) => {
            return Err(e);
        },
        Ok(x) => x,
    };
    let mut list: Vec<PaData> = Vec::new();
    let extra: Option<PaData> = match s4u {
        Some((a, b)) => {
            list.push(a);
            b
        },
        None => None,
    };
    proof {
        assert(list@ =~= s4u_padata(on_behalf));
    }
    let rbcd = honour_options(asked, honour);
    let ghost option = rbcd;
    proof {
        assert(honoured(working_padata(fast, outer)@, *honour, option));
    }
    let inner = inner_padata(extra, proof_data, rbcd);
    let v = assemble_tgs_reply(
        i,
        ticket,
        realm,
        list,
        inner,
        fast,
        &sk,
        &reply_key,
        usage,
        finish,
        layer,
        seal,
    );
    proof {
        assert(tgs_assembled(
            *i,
            ticket,
            realm@,
            s4u_padata(on_behalf),
            inner,
            fast,
            sk,
            reply_key,
            usage,
            *finish,
            *layer,
            *seal,
            v,
        ));
    }
    let r = match v {
        Err(e) => Err(e),
        Ok(rep) => Ok(IssuedTgs { rep, session_key: i.session.copy() }),
    };
    proof {
        assert(usage == tgs_reply_key(h.authenticator.subkey, h.enc_tkt.key).1);
        assert(is_enc_padata(inner, s4u_inner(on_behalf), proof_data, option));
        assert(tgs_keyed_result(
            *i,
            realm@,
            fast,
            *h,
            working_padata(fast, outer)@,
            *raw,
            on_behalf,
            ticket,
            reply_key,
            sk,
            *prove,
            *honour,
            *finish,
            *layer,
            *seal,
            r,
        ));
        assert(tgs_answered_result(
            *i,
            realm@,
            fast,
            *h,
            working_padata(fast, outer)@,
            *raw,
            on_behalf,
            ticket,
            *draw,
            *combine,
            *prove,
            *honour,
            *finish,
            *layer,
            *seal,
            r,
        ));
    }
    r
}

/// The key in the ticket is the key in the encrypted part of the reply, and the
/// session key that is handed out; ticket and reply agree on flags, times, server
/// and realm; the ticket is under the key that was laid out for it; the encrypted part
/// says the nonce of the plan and carries no key version, and without a FAST layer is
/// under the subkey, or the session key of the presented ticket.
pub proof fn law_tgs_session_key_is_shared<
    A: Fn(
        Vec<AuthDatum>,
        &Vec<String>,
        &EncryptionKey,
        &Principal,
        &EncryptionKey,
        &EncTicketPart,
    ) -> Result<Vec<AuthDatum>, Error>,
    B: Fn(&Vec<u8>) -> Result<Vec<AuthDatum>, Error>,
    S: PacSigner,
    T: Fn(&EncryptionKey, u32, &EncTicketPart) -> Result<Vec<u8>, Error>,
    U: Fn(
        &X509User,
        &EncryptionKey,
        &Option<EncryptionKey>,
    ) -> Result<(PaData, Option<PaData>), Error>,
    D: Fn(i32) -> Result<EncryptionKey, Error>,
    C: Fn(&EncryptionKey, &EncryptionKey, &str, &str) -> Result<EncryptionKey, Error>,
    P: Fn(&EncryptionKey, &Vec<u8>) -> Result<Vec<PaData>, Error>,
    H: Fn(&Vec<u8>) -> Option<Vec<u8>>,
    F: Fn(&EncryptionKey, &Ticket, &PrincipalName, &String) -> Result<Vec<u8>, Error>,
    W: Fn(
        &EncryptionKey,
        &Vec<PaData>,
        &Option<EncryptionKey>,
        u32,
        &Vec<u8>,
    ) -> Result<PaData, Error>,
    E: Fn(&EncryptionKey, u32, &EncKdcRepPart) -> Result<Vec<u8>, Error>,
>(
    i: TgsIssue,
    realm: Seq<char>,
    fast: Option<&FastFacts>,
    h: HeaderTgt,
    asked: Seq<PaData>,
    raw: Vec<u8>,
    extra_ad: Vec<AuthDatum>,
    indicate: A,
    wrap: B,
    sign: S,
    seal_ticket: T,
    user: U,
    draw: D,
    combine: C,
    prove: P,
    honour: H,
    finish: F,
    layer: W,
    seal: E,
    y: IssuedTgs,
)
    requires
        tgs_reply_result(
            i,
            realm,
            fast,
            h,
            asked,
            raw,
            extra_ad,
            indicate,
            wrap,
            sign,
            seal_ticket,
            user,
            draw,
            combine,
            prove,
            honour,
            finish,
            layer,
            seal,
            Ok(y),
        ),
    ensures
        exists|
            service: EncryptionKey,
            x: EncTicketPart,
            p: EncKdcRepPart,
            key: EncryptionKey,
        |
            {
                &&& #[trigger] sealed_in_ticket(seal_ticket, service, x, y.rep.ticket)
                &&& key_octets(service) == key_octets(i.service_key)
                &&& #[trigger] sealed_in_reply(
                    seal,
                    key,
                    tgs_reply_key(h.authenticator.subkey, h.enc_tkt.key).1,
                    p,
                    y.rep,
                )
                &&& parts_agree(x, p, y.rep.ticket, y.session_key)
                &&& p.nonce == i.plan.nonce
                &&& x.flags == i.times.flags
                &&& x.cname@ == i.subject.cname@
                &&& x.crealm@ == i.subject.crealm@
                &&& fast is None ==> key_octets(key) == key_octets(
                    tgs_reply_key(h.authenticator.subkey, h.enc_tkt.key).0,
                )
            },
        key_octets(y.session_key) == key_octets(i.session),
        y.rep.ticket.realm@ == realm,
        y.rep.ticket.sname@ == i.plan.sname@,
        y.rep.enc_part.kvno is None,
        y.rep.cname@ == i.plan.rep_cname@,
        y.rep.crealm@ == i.plan.rep_crealm@,
{
    let (terms, t) = choose|terms: MintTerms, t: Result<Ticket, Error>|
        {
            &&& #[trigger] tgs_ticket_minted(
                i,
                realm,
                extra_ad,
                indicate,
                wrap,
                sign,
                seal_ticket,
                terms,
                t,
            )
            &&& match t {
                Err(e) => false,
                Ok(ticket) => tgs_minted_result(
                    i,
                    realm,
                    fast,
                    h,
                    asked,
                    raw,
                    ticket,
                    user,
                    draw,
                    combine,
                    prove,
                    honour,
                    finish,
                    layer,
                    seal,
                    Ok(y),
                ),
            }
        };
    let ticket = t->Ok_0;
    lemma_minted_part(indicate, wrap, sign, seal_ticket, terms, ticket);
    let (x, ad) = choose|x: EncTicketPart, ad: Option<Seq<AuthDatum>>|
        #[trigger] is_part(x, terms, ad) && sealed_in_ticket(
            seal_ticket,
            terms.service_key,
            x,
            ticket,
        );
    let u = choose|u: Result<Option<(PaData, Option<PaData>)>, Error>| #[trigger]
        user_answered(i.subject, h, user, u) && (match u {
            Err(e) => false,
            Ok(s4u) => tgs_answered_result(
                i,
                realm,
                fast,
                h,
                asked,
                raw,
                s4u,
                ticket,
                draw,
                combine,
                prove,
                honour,
                finish,
                layer,
                seal,
                Ok(y),
            ),
        });
    let s4u = u->Ok_0;
    let first = tgs_reply_key(h.authenticator.subkey, h.enc_tkt.key).0;
    let k = choose|k: Result<(EncryptionKey, Option<EncryptionKey>), Error>| #[trigger]
        reply_key_made(first, fast is Some, draw, combine, k) && (match k {
            Err(e) => false,
            Ok(keys) => tgs_keyed_result(
                i,
                realm,
                fast,
                h,
                asked,
                raw,
                s4u,
                ticket,
                keys.0,
                keys.1,
                prove,
                honour,
                finish,
                layer,
                seal,
                Ok(y),
            ),
        });
    let key = (k->Ok_0).0;
    let usage = tgs_reply_key(h.authenticator.subkey, h.enc_tkt.key).1;
    assert(exists|inner: Option<Vec<PaData>>| #[trigger]
        tgs_assembled(
            i,
            ticket,
            realm,
            s4u_padata(s4u),
            inner,
            fast,
            (k->Ok_0).1,
            key,
            usage,
            finish,
            layer,
            seal,
            Ok(y.rep),
        ));
    let inner = choose|inner: Option<Vec<PaData>>| #[trigger]
        tgs_assembled(
            i,
            ticket,
            realm,
            s4u_padata(s4u),
            inner,
            fast,
            (k->Ok_0).1,
            key,
            usage,
            finish,
            layer,
            seal,
            Ok(y.rep),
        );
    let (p, c) = choose|p: EncKdcRepPart, c: Result<Vec<u8>, Error>| #[trigger]
        tgs_part_sealed(i, realm, inner, key, usage, seal, p, c) && (match c {
            Err(e) => false,
            Ok(cipher) => y.rep.enc_part.cipher == cipher && y.rep.ticket == ticket
                && y.rep.enc_part.kvno is None && y.rep.cname@ == i.plan.rep_cname@
                && y.rep.crealm@ == i.plan.rep_crealm@,
        });
    assert(c == Ok::<Vec<u8>, Error>(y.rep.enc_part.cipher));
    assert(sealed_in_ticket(seal_ticket, terms.service_key, x, y.rep.ticket) && sealed_in_reply(
        seal,
        key,
        usage,
        p,
        y.rep,
    ) && parts_agree(x, p, y.rep.ticket, y.session_key));
}

/// The plan of an answer names the key and the usage that the reply is under.
pub proof fn law_reply_key_is_planned(
    plan: TgsPlan,
    policy: Policy,
    realm: Seq<char>,
    req: TgsRequest,
    subject: TgsSubject,
    flags: Flags,
    subject_pac: bool,
    h: HeaderTgt,
    padata: Seq<PaData>,
    fast: Option<&FastFacts>,
)
    requires
        is_tgs_plan(
            plan,
            policy,
            realm,
            req,
            subject,
            flags,
            subject_pac,
            h.authenticator.subkey is Some,
            padata,
            fast,
        ),
    ensures
        tgs_reply_key(h.authenticator.subkey, h.enc_tkt.key) == (
            match plan.reply_key {
                ReplyKey::Subkey => h.authenticator.subkey->0,
                ReplyKey::Session => h.enc_tkt.key,
            },
            plan.usage,
        ),
{
}

/// A TGS reply is under the subkey where there is one, and otherwise under the
/// session key of the presented ticket, each with a usage of its own.
pub proof fn law_subkey_comes_first(subkey: Option<EncryptionKey>, session: EncryptionKey)
    ensures
        subkey matches Some(k) ==> tgs_reply_key(subkey, session) == (k, 9u32),
        subkey is None ==> tgs_reply_key(subkey, session) == (session, 8u32),
{
}

/// What answers a request on behalf of a user goes out beside the reply, and what
/// belongs to it inside.
pub proof fn law_answer_for_a_user_is_split(a: PaData, b: Option<PaData>)
    ensures
        s4u_padata(Some((a, b))) == seq![a],
        s4u_inner(Some((a, b))) == b,
        s4u_padata(None).len() == 0,
        s4u_inner(None) is None,
{
}

/// There is an answer for a user just where a certificate datum named the user.
pub proof fn law_user_is_answered_on_request<
    U: Fn(
        &X509User,
        &EncryptionKey,
        &Option<EncryptionKey>,
    ) -> Result<(PaData, Option<PaData>), Error>,
>(s: TgsSubject, h: HeaderTgt, user: U, u: Result<Option<(PaData, Option<PaData>)>, Error>)
    requires
        user_answered(s, h, user, u),
    ensures
        s.s4u_x509 is None ==> u == Ok::<Option<(PaData, Option<PaData>)>, Error>(None),
        u matches Ok(o) ==> (o is Some <==> s.s4u_x509 is Some),
{
}

} // verus!
