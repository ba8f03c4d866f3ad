//! Putting the reply to an AS request together: session key, ticket, padata and
//! the encrypted part. What is made and encrypted under a key comes in as
//! functions.

use crate::bytes::copy;
use crate::error::Error;
use crate::issue::answer::{working_padata, AsIssue};
use crate::issue::as_req::{
    as_rep_key_info, is_newer_client, key_description, newer_client, AsPlan, AsPreauth,
};
use crate::issue::mint::{
    extra_result, is_part, is_ticket, mint_result, mint_ticket, sealed_part, sealed_result,
    signed_pac, signed_result, with_indicators, wrapped_pac, MintTerms, PacSigner,
    KU_TICKET,
};
use crate::issue::reply::{
    enc_padata, enc_rep_part, return_enc_padata, EncKdcRepPart, FastFacts,
};
use crate::issue::times::spec_omit_start;
use crate::msg::{
    address_octets, copy_addresses, find_pa, has_pa, key_octets, pa_position, AuthDatum,
    EncTicketPart, EncryptedData, EncryptionKey, KdcReqBody, PaData, Ticket, TransitedEncoding,
    MSG_AS_REP, PA_PAC_OPTIONS, PA_PKINIT_KX, PA_PW_SALT, PVNO,
};
use crate::name::{copy_strings, PrincipalName};
use crate::store::{attr, attr_set, KeyEntry, Policy, Principal, KDB_NO_AUTH_DATA_REQUIRED};
use crate::text::views;
use vstd::prelude::*;
use vstd::string::*;

verus! {

/// Key usage of the encrypted part of an AS reply.
pub const KU_AS_REP: u32 = 3;

/// Key usage of the KDC's contribution to an anonymous client's session key.
pub const KU_PA_PKINIT_KX: u32 = 44;

/// The encoding of transited realms, none of which is in an initial ticket.
pub const TR_DOMAIN_X500_COMPRESS: i32 = 1;

/// A reply.
#[derive(Clone, Debug, PartialEq, Eq)]
pub struct KdcRep {
    /// Protocol version.
    pub pvno: i32,
    /// Message type.
    pub msg_type: i32,
    /// Padata.
    pub padata: Option<Vec<PaData>>,
    /// Client realm.
    pub crealm: String,
    /// Client.
    pub cname: PrincipalName,
    /// The ticket.
    pub ticket: Ticket,
    /// The encrypted part.
    pub enc_part: EncryptedData,
}

/// An answered AS request.
#[derive(Clone, Debug, PartialEq, Eq)]
pub struct IssuedAs {
    /// The reply.
    pub rep: KdcRep,
    /// The session key, as it stands in the ticket and in the reply.
    pub session_key: EncryptionKey,
    /// The key that the encrypted part of the reply is under.
    pub as_rep_key: EncryptionKey,
}

/// The session key of an AS ticket, and the datum that carries the KDC's
/// contribution to it.
#[derive(Clone, Debug, PartialEq, Eq)]
pub struct AsSession {
    /// The key.
    pub key: EncryptionKey,
    /// The datum, of an anonymous client only.
    pub kx: Option<PaData>,
}

/// What an anonymous client's session key comes to, once what the KDC drew was
/// encrypted.
pub open spec fn combined_session<
    C: Fn(&EncryptionKey, &EncryptionKey, &str, &str) -> Result<EncryptionKey, Error>,
>(
    drawn: EncryptionKey,
    reply_key: EncryptionKey,
    octets: Vec<u8>,
    combine: C,
    r: Result<AsSession, Error>,
) -> bool {
    exists|c: Result<EncryptionKey, Error>| #[trigger]
        call_ensures(combine, (&drawn, &reply_key, "PKINIT", "KEYEXCHANGE"), c) && (match c {
            Err(e) => r matches Err(x) && x == e,
            Ok(key) => r matches Ok(s) && s.key == key && s.kx == Some(
                PaData { padata_type: PA_PKINIT_KX, padata_value: octets },
            ),
        })
}

/// What making the session key comes to. An anonymous client gets a key that is
/// combined with the reply key, and the part that the KDC drew.
pub open spec fn as_session_result<
    X: Fn(&EncryptionKey, u32, &EncryptionKey) -> Result<Vec<u8>, Error>,
    C: Fn(&EncryptionKey, &EncryptionKey, &str, &str) -> Result<EncryptionKey, Error>,
>(
    drawn: Result<EncryptionKey, Error>,
    anonymous: bool,
    reply_key: EncryptionKey,
    exchange: X,
    combine: C,
    r: Result<AsSession, Error>,
) -> bool {
    match drawn {
        Err(e) => r matches Err(x) && x == e,
        Ok(k) => if !anonymous {
            r matches Ok(s) && s.key == k && s.kx is None
        } else {
            exists|v: Result<Vec<u8>, Error>| #[trigger]
                call_ensures(exchange, (&reply_key, KU_PA_PKINIT_KX, &k), v) && (match v {
                    Err(e) => r matches Err(x) && x == e,
                    Ok(octets) => combined_session(k, reply_key, octets, combine, r),
                })
        },
    }
}

/// Makes the session key of an AS ticket. `drawn` is a fresh key; `exchange`
/// encrypts it for the client and `combine` combines two keys.
pub fn as_session<
    X: Fn(&EncryptionKey, u32, &EncryptionKey) -> Result<Vec<u8>, Error>,
    C: Fn(&EncryptionKey, &EncryptionKey, &str, &str) -> Result<EncryptionKey, Error>,
>(
    drawn: Result<EncryptionKey, Error>,
    anonymous: bool,
    reply_key: &EncryptionKey,
    exchange: &X,
    combine: &C,
) -> (r: Result<AsSession, Error>)
    requires
        forall|a: EncryptionKey, u: u32, b: EncryptionKey| #[trigger]
            call_requires(*exchange, (&a, u, &b)),
        forall|a: EncryptionKey, b: EncryptionKey, p: &str, q: &str| #[trigger]
            call_requires(*combine, (&a, &b, p, q)),
    ensures
        as_session_result(drawn, anonymous, *reply_key, *exchange, *combine, r),
{
    let k = match drawn {
        Err(e) => {
            return Err(e);
        },
        Ok(k) => k,
    };
    if !anonymous {
        return Ok(AsSession { key: k, kx: None });
    }
    let v = exchange(reply_key, KU_PA_PKINIT_KX, &k);
    proof {
        assert(call_ensures(*exchange, (reply_key, KU_PA_PKINIT_KX, &k), v));
    }
    let octets = match v {
        Err(e) => {
            return Err(e);
        },
        Ok(o) => o,
    };
    let c = combine(&k, reply_key, "PKINIT", "KEYEXCHANGE");
    proof {
        assert(call_ensures(*combine, (&k, reply_key, "PKINIT", "KEYEXCHANGE"), c));
    }
    match c {
        Err(e) => Err(e),
        Ok(key) => Ok(
            AsSession {
                key,
                kx: Some(PaData { padata_type: PA_PKINIT_KX, padata_value: octets }),
            },
        ),
    }
}

/// What an AS ticket is minted of: it is under the key of the server that the plan
/// names.
pub open spec fn is_as_terms(
    t: MintTerms,
    i: AsIssue,
    realm: Seq<char>,
    body: KdcReqBody,
    extra: Vec<AuthDatum>,
) -> bool {
    let skey = i.lookup.server.keys@[i.plan.server_key as int];
    &&& key_octets(t.service_key) == skey.octets()
    &&& key_octets(t.kdc_key) == key_octets(i.plan.kdc_key)
    &&& *t.krbtgt == *i.plan.local_tgt
    &&& key_octets(t.krbtgt_key) == i.plan.local_tgt.keys@[i.plan.local_tgt_key as int].octets()
    &&& views(t.indicators@) == views(i.pre.indicators@)
    &&& key_octets(t.session) == key_octets(i.plan.session)
    &&& t.srealm@ == realm
    &&& t.sname@ == i.plan.sname@
    &&& t.crealm@ == i.plan.crealm@
    &&& t.cname@ == i.pre.cname@
    &&& t.times == i.plan.times
    &&& t.transited.tr_type == TR_DOMAIN_X500_COMPRESS
    &&& t.transited.contents@.len() == 0
    &&& address_octets(t.caddr) == address_octets(body.addresses)
    &&& t.extra == extra
    &&& t.service_etype == skey.etype
    &&& t.kvno == skey.kvno
    &&& t.no_auth_data == attr_set(i.lookup.server.attributes, KDB_NO_AUTH_DATA_REQUIRED)
    &&& t.include_pac == i.plan.include_pac
}

/// The keys that a laid out AS request names are there.
pub open spec fn as_keys_are_there(i: AsIssue) -> bool {
    &&& i.plan.server_key < i.lookup.server.keys@.len()
    &&& i.plan.local_tgt_key < i.plan.local_tgt.keys@.len()
    &&& i.lookup.ckey < i.lookup.client.keys@.len()
}

/// What an AS ticket is minted of.
pub fn as_terms<'a>(
    i: &AsIssue<'a>,
    realm: &str,
    body: &KdcReqBody,
    extra: Vec<AuthDatum>,
) -> (t: MintTerms<'a>)
    requires
        as_keys_are_there(*i),
    ensures
        is_as_terms(t, *i, realm@, *body, extra),
{
    let skey: &KeyEntry = &i.lookup.server.keys[i.plan.server_key];
    MintTerms {
        service_key: skey.to_key(),
        kdc_key: i.plan.kdc_key.copy(),
        krbtgt: i.plan.local_tgt,
        krbtgt_key: i.plan.local_tgt.keys[i.plan.local_tgt_key].to_key(),
        indicators: copy_strings(i.pre.indicators.as_slice()),
        session: i.plan.session.copy(),
        srealm: realm.to_owned(),
        sname: i.plan.sname.copy(),
        crealm: i.plan.crealm.as_str().to_owned(),
        cname: i.pre.cname.copy(),
        times: i.plan.times,
        transited: TransitedEncoding { tr_type: TR_DOMAIN_X500_COMPRESS, contents: Vec::new() },
        caddr: copy_addresses(&body.addresses),
        extra,
        service_etype: skey.etype,
        kvno: skey.kvno,
        no_auth_data: attr(i.lookup.server, KDB_NO_AUTH_DATA_REQUIRED),
        include_pac: i.plan.include_pac,
    }
}

/// What the reply key becomes: under FAST it is combined with a fresh key of type
/// `etype`, which goes out inside the layer.
pub open spec fn strengthened_result<
    D: Fn(i32) -> Result<EncryptionKey, Error>,
    C: Fn(&EncryptionKey, &EncryptionKey, &str, &str) -> Result<EncryptionKey, Error>,
>(
    key: EncryptionKey,
    fast: bool,
    etype: i32,
    draw: D,
    combine: C,
    r: Result<(EncryptionKey, Option<EncryptionKey>), Error>,
) -> bool {
    if !fast {
        r matches Ok(t) && t.0 == key && t.1 is None
    } else {
        exists|drawn: Result<EncryptionKey, Error>| #[trigger]
            call_ensures(draw, (etype,), drawn) && (match drawn {
                Err(e) => r matches Err(x) && x == e,
                Ok(s) => strengthened_with(key, s, combine, r),
            })
    }
}

/// What the reply key becomes with this fresh key.
pub open spec fn strengthened_with<
    C: Fn(&EncryptionKey, &EncryptionKey, &str, &str) -> Result<EncryptionKey, Error>,
>(
    key: EncryptionKey,
    drawn: EncryptionKey,
    combine: C,
    r: Result<(EncryptionKey, Option<EncryptionKey>), Error>,
) -> bool {
    exists|c: Result<EncryptionKey, Error>| #[trigger]
        call_ensures(combine, (&drawn, &key, "strengthenkey", "replykey"), c) && (match c {
            Err(e) => r matches Err(x) && x == e,
            Ok(k) => r matches Ok(t) && t.0 == k && t.1 == Some(drawn),
        })
}

/// Strengthens the reply key. `draw` makes a fresh key of a type.
pub fn strengthen<
    D: Fn(i32) -> Result<EncryptionKey, Error>,
    C: Fn(&EncryptionKey, &EncryptionKey, &str, &str) -> Result<EncryptionKey, Error>,
>(key: EncryptionKey, fast: bool, etype: i32, draw: &D, combine: &C) -> (r: Result<
    (EncryptionKey, Option<EncryptionKey>),
    Error,
>)
    requires
        forall|e: i32| #[trigger] call_requires(*draw, (e,)),
        forall|a: EncryptionKey, b: EncryptionKey, p: &str, q: &str| #[trigger]
            call_requires(*combine, (&a, &b, p, q)),
    ensures
        strengthened_result(key, fast, etype, *draw, *combine, r),
{
    if !fast {
        return Ok((key, None));
    }
    let drawn = draw(etype);
    assert(call_ensures(*draw, (etype,), drawn));
    match drawn {
        Err(e) => Err(e),
        Ok(s) => {
            let c = combine(&s, &key, "strengthenkey", "replykey");
            assert(call_ensures(*combine, (&s, &key, "strengthenkey", "replykey"), c));
            let r: Result<(EncryptionKey, Option<EncryptionKey>), Error> = match c {
                Err(e) => Err(e),
                Ok(k) => Ok((k, Some(s))),
            };
            assert(strengthened_with(key, s, *combine, r));
            r
        },
    }
}

/// What the padata of a reply come to: under FAST they go inside the layer, with
/// the strengthening key, the nonce and what binds the layer to the ticket.
pub open spec fn reply_padata_result<
    F: Fn(&EncryptionKey, &Ticket, &PrincipalName, &String) -> Result<Vec<u8>, Error>,
    W: Fn(
        &EncryptionKey,
        &Vec<PaData>,
        &Option<EncryptionKey>,
        u32,
        &Vec<u8>,
    ) -> Result<PaData, Error>,
>(
    list: Seq<PaData>,
    fast: Option<&FastFacts>,
    strengthening: Option<EncryptionKey>,
    ticket: Ticket,
    cname: PrincipalName,
    crealm: String,
    finish: F,
    layer: W,
    r: Result<Option<Vec<PaData>>, Error>,
) -> bool {
    match fast {
        None => r matches Ok(v) && (if list.len() == 0 {
            v is None
        } else {
            v matches Some(l) && l@ == list
        }),
        Some(f) => exists|d: Result<Vec<u8>, Error>| #[trigger]
            call_ensures(finish, (f.armor_key, &ticket, &cname, &crealm), d) && (match d {
                Err(e) => r matches Err(x) && x == e,
                Ok(finished) => exists|l: Vec<PaData>, w: Result<PaData, Error>|
                    {
                        &&& l@ == list
                        &&& #[trigger] call_ensures(
                            layer,
                            (f.armor_key, &l, &strengthening, f.nonce, &finished),
                            w,
                        )
                        &&& match w {
                            Err(e) => r matches Err(x) && x == e,
                            Ok(p) => r matches Ok(v) && (v matches Some(l2) && l2@ == seq![p]),
                        }
                    },
            }),
    }
}

/// Puts the padata of a reply where they go.
pub fn reply_padata<
    F: Fn(&EncryptionKey, &Ticket, &PrincipalName, &String) -> Result<Vec<u8>, Error>,
    W: Fn(
        &EncryptionKey,
        &Vec<PaData>,
        &Option<EncryptionKey>,
        u32,
        &Vec<u8>,
    ) -> Result<PaData, Error>,
>(
    list: Vec<PaData>,
    fast: Option<&FastFacts>,
    strengthening: &Option<EncryptionKey>,
    ticket: &Ticket,
    cname: &PrincipalName,
    crealm: &String,
    finish: &F,
    layer: &W,
) -> (r: Result<Option<Vec<PaData>>, Error>)
    requires
        forall|a: EncryptionKey, t: Ticket, n: PrincipalName, s: String| #[trigger]
            call_requires(*finish, (&a, &t, &n, &s)),
        forall|a: EncryptionKey, l: Vec<PaData>, k: Option<EncryptionKey>, n: u32, d: Vec<u8>|
            #[trigger] call_requires(*layer, (&a, &l, &k, n, &d)),
    ensures
        reply_padata_result(
            list@,
            fast,
            *strengthening,
            *ticket,
            *cname,
            *crealm,
            *finish,
            *layer,
            r,
        ),
{
    let f = match fast {
        None => {
            if list.len() == 0 {
                return Ok(None);
            }
            return Ok(Some(list));
        },
        Some(f) => f,
    };
    let d = finish(f.armor_key, ticket, cname, crealm);
    proof {
        assert(call_ensures(*finish, (f.armor_key, ticket, cname, crealm), d));
    }
    let finished = match d {
        Err(e) => {
            return Err(e);
        },
        Ok(b) => b,
    };
    let w = layer(f.armor_key, &list, strengthening, f.nonce, &finished);
    proof {
        assert(call_ensures(
            *layer,
            (f.armor_key, &list, strengthening, f.nonce, &finished),
            w,
        ));
    }
    match w {
        Err(e) => Err(e),
        Ok(p) => {
            let mut out: Vec<PaData> = Vec::new();
            out.push(p);
            proof {
                assert(out@ =~= seq![p]);
            }
            Ok(Some(out))
        },
    }
}

/// `prove` gave `p` for the reply key and the request as it came; nothing is proved
/// where that was not asked for.
pub open spec fn proof_result<P: Fn(&EncryptionKey, &Vec<u8>) -> Result<Vec<PaData>, Error>>(
    wanted: bool,
    key: EncryptionKey,
    raw: Vec<u8>,
    prove: P,
    p: Result<Option<Vec<PaData>>, Error>,
) -> bool {
    if !wanted {
        p matches Ok(v) && v is None
    } else {
        exists|x: Result<Vec<PaData>, Error>| #[trigger]
            call_ensures(prove, (&key, &raw), x) && (match x {
                Err(e) => p matches Err(y) && y == e,
                Ok(v) => p matches Ok(w) && w == Some(v),
            })
    }
}

/// Proves that a reply answers its request, where that was asked for. `raw` is the
/// request as it came.
pub fn reply_proof<P: Fn(&EncryptionKey, &Vec<u8>) -> Result<Vec<PaData>, Error>>(
    wanted: bool,
    key: &EncryptionKey,
    raw: &Vec<u8>,
    prove: &P,
) -> (p: Result<Option<Vec<PaData>>, Error>)
    requires
        forall|k: EncryptionKey, b: Vec<u8>| #[trigger] call_requires(*prove, (&k, &b)),
    ensures
        proof_result(wanted, *key, *raw, *prove, p),
{
    if !wanted {
        return Ok(None);
    }
    let x = prove(key, raw);
    proof {
        assert(call_ensures(*prove, (key, raw), x));
    }
    match x {
        Err(e) => Err(e),
        Ok(v) => Ok(Some(v)),
    }
}

/// `v` is the padata inside a reply. `rbcd` is the one PAC option that is
/// honoured, encoded, where the request has it.
pub open spec fn is_enc_padata(
    v: Option<Vec<PaData>>,
    extra: Option<PaData>,
    proof_data: Option<Vec<PaData>>,
    rbcd: Option<Vec<u8>>,
) -> bool {
    let option = PaData { padata_type: PA_PAC_OPTIONS, padata_value: rbcd->0 };
    let all = enc_padata(
        extra,
        match proof_data {
            Some(l) => Some(l@),
            None => None,
        },
        rbcd is Some,
        option,
    );
    match v {
        Some(l) => l@ == all && all.len() > 0,
        None => all.len() == 0,
    }
}

/// Makes the padata inside a reply.
pub fn inner_padata(
    extra: Option<PaData>,
    proof_data: Option<Vec<PaData>>,
    rbcd: Option<Vec<u8>>,
) -> (v: Option<Vec<PaData>>)
    ensures
        is_enc_padata(v, extra, proof_data, rbcd),
{
    match rbcd {
        Some(o) => return_enc_padata(extra, proof_data, true, o),
        None => return_enc_padata(extra, proof_data, false, Vec::new()),
    }
}

/// `p` is the encrypted part of an AS reply.
pub open spec fn is_as_part(
    p: EncKdcRepPart,
    plan: AsPlan,
    realm: Seq<char>,
    body: KdcReqBody,
    enc_padata: Option<Vec<PaData>>,
) -> bool {
    &&& key_octets(p.key) == key_octets(plan.session)
    &&& p.last_req@ == seq![(0i32, 0u32)]
    &&& p.nonce == plan.nonce
    &&& p.key_expiration == plan.key_expiration
    &&& p.flags == plan.times.flags
    &&& p.authtime == plan.times.authtime
    &&& p.starttime == spec_omit_start(plan.times.starttime, plan.times.authtime)
    &&& p.endtime == plan.times.endtime
    &&& p.renew_till == plan.times.renew_till
    &&& p.srealm@ == realm
    &&& p.sname@ == plan.sname@
    &&& address_octets(p.caddr) == address_octets(body.addresses)
    &&& p.encrypted_pa_data == enc_padata
}

/// `seal` gave `c` for the encrypted part of an AS reply.
pub open spec fn as_part_sealed<
    E: Fn(&EncryptionKey, u32, &EncKdcRepPart) -> Result<Vec<u8>, Error>,
>(
    plan: AsPlan,
    realm: Seq<char>,
    body: KdcReqBody,
    enc_padata: Option<Vec<PaData>>,
    reply_key: EncryptionKey,
    seal: E,
    p: EncKdcRepPart,
    c: Result<Vec<u8>, Error>,
) -> bool {
    is_as_part(p, plan, realm, body, enc_padata) && call_ensures(
        seal,
        (&reply_key, KU_AS_REP, &p),
        c,
    )
}

/// What putting an AS reply together comes to.
pub open spec fn as_assembled<
    E: Fn(&EncryptionKey, u32, &EncKdcRepPart) -> Result<Vec<u8>, Error>,
>(
    plan: AsPlan,
    ticket: Ticket,
    realm: Seq<char>,
    body: KdcReqBody,
    padata: Option<Vec<PaData>>,
    enc_padata: Option<Vec<PaData>>,
    reply_key: EncryptionKey,
    seal: E,
    r: Result<KdcRep, Error>,
) -> bool {
    exists|p: EncKdcRepPart, c: Result<Vec<u8>, Error>| #[trigger]
        as_part_sealed(plan, realm, body, enc_padata, reply_key, seal, p, c) && (match c {
            Err(e) => r matches Err(x) && x == e,
            Ok(cipher) => r matches Ok(v) && {
                &&& v.pvno == PVNO
                &&& v.msg_type == MSG_AS_REP
                &&& v.padata == padata
                &&& v.crealm@ == plan.rep_crealm@
                &&& v.cname@ == plan.rep_cname@
                &&& v.ticket == ticket
                &&& v.enc_part.etype == reply_key.keytype
                &&& v.enc_part.kvno is None
                &&& v.enc_part.cipher == cipher
            },
        })
}

/// Puts an AS reply together: its encrypted part is made and encrypted, without a
/// key version.
pub fn assemble_as_reply<
    E: Fn(&EncryptionKey, u32, &EncKdcRepPart) -> Result<Vec<u8>, Error>,
>(
    plan: &AsPlan,
    ticket: Ticket,
    realm: &str,
    body: &KdcReqBody,
    padata: Option<Vec<PaData>>,
    enc_padata: Option<Vec<PaData>>,
    reply_key: &EncryptionKey,
    seal: &E,
) -> (r: Result<KdcRep, Error>)
    requires
        forall|k: EncryptionKey, u: u32, p: EncKdcRepPart| #[trigger]
            call_requires(*seal, (&k, u, &p)),
    ensures
        as_assembled(
            *plan,
            ticket,
            realm@,
            *body,
            padata,
            enc_padata,
            *reply_key,
            *seal,
            r,
        ),
{
    let p = enc_rep_part(
        plan.session.copy(),
        plan.nonce,
        plan.times,
        realm.to_owned(),
        plan.sname.copy(),
        enc_padata,
        copy_addresses(&body.addresses),
        plan.key_expiration,
    );
    let c = seal(reply_key, KU_AS_REP, &p);
    proof {
        assert(as_part_sealed(*plan, realm@, *body, enc_padata, *reply_key, *seal, p, c));
    }
    match c {
        Err(e) => Err(e),
        Ok(cipher) => Ok(
            KdcRep {
                pvno: PVNO,
                msg_type: MSG_AS_REP,
                padata,
                crealm: plan.rep_crealm.as_str().to_owned(),
                cname: plan.rep_cname.copy(),
                ticket,
                enc_part: EncryptedData { etype: reply_key.keytype, kvno: None, cipher },
            },
        ),
    }
}

/// What describes a client's key was made: `salt` is its salt, `info` the older
/// form, of which only older clients hear, and `info2` the newer one.
pub open spec fn described_with<
    X: Fn(i32, &Vec<u8>) -> Option<Vec<u8>>,
    Y: Fn(i32, &Vec<u8>) -> Option<Vec<u8>>,
>(
    etype: i32,
    octets: Seq<u8>,
    newer: bool,
    describe: X,
    describe2: Y,
    salt: Vec<u8>,
    info: Option<Vec<u8>>,
    info2: Option<Vec<u8>>,
) -> bool {
    &&& salt@ == octets
    &&& !newer ==> call_ensures(describe, (etype, &salt), info)
    &&& call_ensures(describe2, (etype, &salt), info2)
}

/// `d` describes a client's key in an AS reply: older clients get its salt as well.
pub open spec fn is_described<
    X: Fn(i32, &Vec<u8>) -> Option<Vec<u8>>,
    Y: Fn(i32, &Vec<u8>) -> Option<Vec<u8>>,
>(
    etype: i32,
    octets: Seq<u8>,
    newer: bool,
    describe: X,
    describe2: Y,
    d: Seq<PaData>,
) -> bool {
    exists|salt: Vec<u8>, info: Option<Vec<u8>>, info2: Option<Vec<u8>>|
        {
            &&& #[trigger] described_with(
                etype,
                octets,
                newer,
                describe,
                describe2,
                salt,
                info,
                info2,
            )
            &&& d == key_description(newer, info, info2) + (if newer {
                Seq::empty()
            } else {
                seq![PaData { padata_type: PA_PW_SALT, padata_value: salt }]
            })
        }
}

/// Describes a client's key in an AS reply.
fn describe_key<
    X: Fn(i32, &Vec<u8>) -> Option<Vec<u8>>,
    Y: Fn(i32, &Vec<u8>) -> Option<Vec<u8>>,
>(
    policy: &Policy,
    requested: &[i32],
    etype: i32,
    octets: &[u8],
    describe: &X,
    describe2: &Y,
) -> (d: Vec<PaData>)
    requires
        forall|e: i32, s: Vec<u8>| #[trigger] call_requires(*describe, (e, &s)),
        forall|e: i32, s: Vec<u8>| #[trigger] call_requires(*describe2, (e, &s)),
    ensures
        is_described(
            etype,
            octets@,
            newer_client(*policy, requested@),
            *describe,
            *describe2,
            d@,
        ),
{
    let salt = copy(octets);
    let newer: bool = is_newer_client(policy, requested);
    let info: Option<Vec<u8>> = if newer {
        None
    } else {
        describe(etype, &salt)
    };
    let info2 = describe2(etype, &salt);
    proof {
        assert(described_with(
            etype,
            octets@,
            newer,
            *describe,
            *describe2,
            salt,
            info,
            info2,
        ));
    }
    as_rep_key_info(policy, requested, info, info2, salt)
}

/// `list` is the padata of an AS reply: what pre-authentication left, the
/// contribution to the session key, and the description of the client's key.
pub open spec fn is_as_padata<
    X: Fn(i32, &Vec<u8>) -> Option<Vec<u8>>,
    Y: Fn(i32, &Vec<u8>) -> Option<Vec<u8>>,
>(
    policy: Policy,
    body: KdcReqBody,
    i: AsIssue,
    describe: X,
    describe2: Y,
    list: Seq<PaData>,
) -> bool {
    let kx = match i.plan.kx {
        Some(p) => seq![p],
        None => Seq::empty(),
    };
    if i.plan.describes_key {
        exists|d: Seq<PaData>|
            {
                &&& #[trigger] is_described(
                    i.lookup.client.keys@[i.lookup.ckey as int].etype,
                    i.lookup.client.salt@,
                    newer_client(policy, body.etype@),
                    describe,
                    describe2,
                    d,
                )
                &&& list == i.pre.extra_padata@ + kx + d
            }
    } else {
        list == i.pre.extra_padata@ + kx
    }
}

/// `rbcd` is the one PAC option that is honoured, encoded, where the padata ask for
/// it.
pub open spec fn honoured<H: Fn(&Vec<u8>) -> Option<Vec<u8>>>(
    padata: Seq<PaData>,
    honour: H,
    rbcd: Option<Vec<u8>>,
) -> bool {
    if has_pa(padata, PA_PAC_OPTIONS) {
        call_ensures(
            honour,
            (&padata[pa_position(padata, PA_PAC_OPTIONS)].padata_value,),
            rbcd,
        )
    } else {
        rbcd is None
    }
}

/// The one PAC option that is honoured, encoded, where the padata ask for it.
pub fn honour_options<H: Fn(&Vec<u8>) -> Option<Vec<u8>>>(padata: &[PaData], honour: &H) -> (rbcd:
    Option<Vec<u8>>)
    requires
        forall|x: Vec<u8>| #[trigger] call_requires(*honour, (&x,)),
    ensures
        honoured(padata@, *honour, rbcd),
{
    match find_pa(padata, PA_PAC_OPTIONS) {
        Some(i) => honour(&padata[i].padata_value),
        None => None,
    }
}

/// What an AS reply comes to whose ticket, reply key and padata are there.
pub open spec fn as_sealed_result<
    P: Fn(&EncryptionKey, &Vec<u8>) -> Result<Vec<PaData>, Error>,
    H: Fn(&Vec<u8>) -> Option<Vec<u8>>,
    E: Fn(&EncryptionKey, u32, &EncKdcRepPart) -> Result<Vec<u8>, Error>,
>(
    plan: AsPlan,
    realm: Seq<char>,
    body: KdcReqBody,
    asked: Seq<PaData>,
    raw: Vec<u8>,
    ticket: Ticket,
    reply_key: EncryptionKey,
    padata: Option<Vec<PaData>>,
    prove: P,
    honour: H,
    seal: E,
    r: Result<IssuedAs, Error>,
) -> bool {
    exists|p: Result<Option<Vec<PaData>>, Error>| #[trigger]
        proof_result(plan.want_enc_pa, reply_key, raw, prove, p) && (match p {
            Err(e) => r matches Err(x) && x == e,
            Ok(proof_data) => exists|
                rbcd: Option<Vec<u8>>,
                inner: Option<Vec<PaData>>,
                v: Result<KdcRep, Error>,
            |
                {
                    &&& #[trigger] honoured(asked, honour, rbcd)
                    &&& is_enc_padata(inner, None, proof_data, rbcd)
                    &&& #[trigger] as_assembled(
                        plan,
                        ticket,
                        realm,
                        body,
                        padata,
                        inner,
                        reply_key,
                        seal,
                        v,
                    )
                    &&& match v {
                        Err(e) => r matches Err(x) && x == e,
                        Ok(rep) => r matches Ok(i) && i.rep == rep && i.session_key == plan.session
                            && i.as_rep_key == reply_key,
                    }
                },
        })
}

/// What an AS reply comes to whose ticket was minted.
pub open spec fn as_minted_result<
    D: Fn(i32) -> Result<EncryptionKey, Error>,
    C: Fn(&EncryptionKey, &EncryptionKey, &str, &str) -> Result<EncryptionKey, Error>,
    X: Fn(i32, &Vec<u8>) -> Option<Vec<u8>>,
    Y: Fn(i32, &Vec<u8>) -> Option<Vec<u8>>,
    F: Fn(&EncryptionKey, &Ticket, &PrincipalName, &String) -> Result<Vec<u8>, Error>,
    W: Fn(
        &EncryptionKey,
        &Vec<PaData>,
        &Option<EncryptionKey>,
        u32,
        &Vec<u8>,
    ) -> Result<PaData, Error>,
    P: Fn(&EncryptionKey, &Vec<u8>) -> Result<Vec<PaData>, Error>,
    H: Fn(&Vec<u8>) -> Option<Vec<u8>>,
    E: Fn(&EncryptionKey, u32, &EncKdcRepPart) -> Result<Vec<u8>, Error>,
>(
    policy: Policy,
    i: AsIssue,
    realm: Seq<char>,
    body: KdcReqBody,
    fast: Option<&FastFacts>,
    asked: Seq<PaData>,
    raw: Vec<u8>,
    ticket: Ticket,
    draw: D,
    combine: C,
    describe: X,
    describe2: Y,
    finish: F,
    layer: W,
    prove: P,
    honour: H,
    seal: E,
    r: Result<IssuedAs, Error>,
) -> bool {
    exists|k: Result<(EncryptionKey, Option<EncryptionKey>), Error>|
        {
            &&& #[trigger] strengthened_result(
                i.pre.as_rep_key,
                fast is Some,
                i.lookup.client.keys@[i.lookup.ckey as int].etype,
                draw,
                combine,
                k,
            )
            &&& match k {
                Err(e) => r matches Err(x) && x == e,
                Ok(keys) => exists|list: Seq<PaData>, l: Result<Option<Vec<PaData>>, Error>|
                    {
                        &&& is_as_padata(policy, body, i, describe, describe2, list)
                        &&& #[trigger] reply_padata_result(
                            list,
                            fast,
                            keys.1,
                            ticket,
                            i.pre.cname,
                            i.plan.crealm,
                            finish,
                            layer,
                            l,
                        )
                        &&& match l {
                            Err(e) => r matches Err(x) && x == e,
                            Ok(padata) => as_sealed_result(
                                i.plan,
                                realm,
                                body,
                                asked,
                                raw,
                                ticket,
                                keys.0,
                                padata,
                                prove,
                                honour,
                                seal,
                                r,
                            ),
                        }
                    },
            }
        }
}

/// `t` is what minting an AS ticket comes to.
pub open spec fn as_ticket_minted<
    A: Fn(
        Vec<AuthDatum>,
        &Vec<String>,
        &EncryptionKey,
        &Principal,
        &EncryptionKey,
        &EncTicketPart,
    ) -> Result<Vec<AuthDatum>, Error>,
    B: Fn(&Vec<u8>) -> Result<Vec<AuthDatum>, Error>,
    S: PacSigner,
    T: Fn(&EncryptionKey, u32, &EncTicketPart) -> Result<Vec<u8>, Error>,
>(
    i: AsIssue,
    realm: Seq<char>,
    body: KdcReqBody,
    extra: Vec<AuthDatum>,
    indicate: A,
    wrap: B,
    sign: S,
    seal_ticket: T,
    terms: MintTerms,
    t: Result<Ticket, Error>,
) -> bool {
    is_as_terms(terms, i, realm, body, extra) && mint_result(
        indicate,
        wrap,
        sign,
        seal_ticket,
        terms,
        t,
    )
}

/// What an AS request that was laid out is answered with: the ticket is minted,
/// then the reply key and the padata are made, then the reply is put together.
pub open spec fn as_reply_result<
    A: Fn(
        Vec<AuthDatum>,
        &Vec<String>,
        &EncryptionKey,
        &Principal,
        &EncryptionKey,
        &EncTicketPart,
    ) -> Result<Vec<AuthDatum>, Error>,
    B: Fn(&Vec<u8>) -> Result<Vec<AuthDatum>, Error>,
    S: PacSigner,
    T: Fn(&EncryptionKey, u32, &EncTicketPart) -> Result<Vec<u8>, Error>,
    D: Fn(i32) -> Result<EncryptionKey, Error>,
    C: Fn(&EncryptionKey, &EncryptionKey, &str, &str) -> Result<EncryptionKey, Error>,
    X: Fn(i32, &Vec<u8>) -> Option<Vec<u8>>,
    Y: Fn(i32, &Vec<u8>) -> Option<Vec<u8>>,
    F: Fn(&EncryptionKey, &Ticket, &PrincipalName, &String) -> Result<Vec<u8>, Error>,
    W: Fn(
        &EncryptionKey,
        &Vec<PaData>,
        &Option<EncryptionKey>,
        u32,
        &Vec<u8>,
    ) -> Result<PaData, Error>,
    P: Fn(&EncryptionKey, &Vec<u8>) -> Result<Vec<PaData>, Error>,
    H: Fn(&Vec<u8>) -> Option<Vec<u8>>,
    E: Fn(&EncryptionKey, u32, &EncKdcRepPart) -> Result<Vec<u8>, Error>,
>(
    policy: Policy,
    realm: Seq<char>,
    body: KdcReqBody,
    i: AsIssue,
    fast: Option<&FastFacts>,
    asked: Seq<PaData>,
    raw: Vec<u8>,
    extra_ad: Vec<AuthDatum>,
    indicate: A,
    wrap: B,
    sign: S,
    seal_ticket: T,
    draw: D,
    combine: C,
    describe: X,
    describe2: Y,
    finish: F,
    layer: W,
    prove: P,
    honour: H,
    seal: E,
    r: Result<IssuedAs, Error>,
) -> bool {
    exists|terms: MintTerms, t: Result<Ticket, Error>|
        {
            &&& #[trigger] as_ticket_minted(
                i,
                realm,
                body,
                extra_ad,
                indicate,
                wrap,
                sign,
                seal_ticket,
                terms,
                t,
            )
            &&& match t {
                Err(e) => r matches Err(x) && x == e,
                Ok(ticket) => as_minted_result(
                    policy,
                    i,
                    realm,
                    body,
                    fast,
                    asked,
                    raw,
                    ticket,
                    draw,
                    combine,
                    describe,
                    describe2,
                    finish,
                    layer,
                    prove,
                    honour,
                    seal,
                    r,
                ),
            }
        }
}

/// Plans that differ in the contribution to the session key alone make the same
/// reply.
proof fn lemma_assembled_alike<
    E: Fn(&EncryptionKey, u32, &EncKdcRepPart) -> Result<Vec<u8>, Error>,
>(
    plan: AsPlan,
    other: AsPlan,
    ticket: Ticket,
    realm: Seq<char>,
    body: KdcReqBody,
    padata: Option<Vec<PaData>>,
    inner: Option<Vec<PaData>>,
    reply_key: EncryptionKey,
    seal: E,
    v: Result<KdcRep, Error>,
)
    requires
        plan == (AsPlan { kx: plan.kx, ..other }),
        as_assembled(plan, ticket, realm, body, padata, inner, reply_key, seal, v),
    ensures
        as_assembled(other, ticket, realm, body, padata, inner, reply_key, seal, v),
{
    let (p, c) = choose|p: EncKdcRepPart, c: Result<Vec<u8>, Error>| #[trigger]
        as_part_sealed(plan, realm, body, inner, reply_key, seal, p, c) && (match c {
            Err(e) => v matches Err(x) && x == e,
            Ok(cipher) => v matches Ok(w) && {
                &&& w.pvno == PVNO
                &&& w.msg_type == MSG_AS_REP
                &&& w.padata == padata
                &&& w.crealm@ == plan.rep_crealm@
                &&& w.cname@ == plan.rep_cname@
                &&& w.ticket == ticket
                &&& w.enc_part.etype == reply_key.keytype
                &&& w.enc_part.kvno is None
                &&& w.enc_part.cipher == cipher
            },
        });
    assert(as_part_sealed(other, realm, body, inner, reply_key, seal, p, c));
}

/// Answers an AS request that was laid out. `indicate`, `wrap`, `sign` and
/// `seal_ticket` serve the ticket; `draw` makes a fresh key of a type and `combine`
/// combines two keys; `describe` and `describe2` encode the description of a key in
/// the older and the newer form; `finish` binds a FAST layer to the ticket and
/// `layer` makes it; `prove` proves that the reply answers the request `raw`; `honour`
/// encodes the PAC option that is honoured; `seal` encrypts the reply's part.
pub fn issue_as_reply<
    A: Fn(
        Vec<AuthDatum>,
        &Vec<String>,
        &EncryptionKey,
        &Principal,
        &EncryptionKey,
        &EncTicketPart,
    ) -> Result<Vec<AuthDatum>, Error>,
    B: Fn(&Vec<u8>) -> Result<Vec<AuthDatum>, Error>,
    S: PacSigner,
    T: Fn(&EncryptionKey, u32, &EncTicketPart) -> Result<Vec<u8>, Error>,
    D: Fn(i32) -> Result<EncryptionKey, Error>,
    C: Fn(&EncryptionKey, &EncryptionKey, &str, &str) -> Result<EncryptionKey, Error>,
    X: Fn(i32, &Vec<u8>) -> Option<Vec<u8>>,
    Y: Fn(i32, &Vec<u8>) -> Option<Vec<u8>>,
    F: Fn(&EncryptionKey, &Ticket, &PrincipalName, &String) -> Result<Vec<u8>, Error>,
    W: Fn(
        &EncryptionKey,
        &Vec<PaData>,
        &Option<EncryptionKey>,
        u32,
        &Vec<u8>,
    ) -> Result<PaData, Error>,
    P: Fn(&EncryptionKey, &Vec<u8>) -> Result<Vec<PaData>, Error>,
    H: Fn(&Vec<u8>) -> Option<Vec<u8>>,
    E: Fn(&EncryptionKey, u32, &EncKdcRepPart) -> Result<Vec<u8>, Error>,
>(
    policy: &Policy,
    realm: &str,
    body: &KdcReqBody,
    i: AsIssue,
    fast: Option<&FastFacts>,
    outer: &[PaData],
    raw: &Vec<u8>,
    extra_ad: Vec<AuthDatum>,
    indicate: &A,
    wrap: &B,
    sign: &S,
    seal_ticket: &T,
    draw: &D,
    combine: &C,
    describe: &X,
    describe2: &Y,
    finish: &F,
    layer: &W,
    prove: &P,
    honour: &H,
    seal: &E,
) -> (r: Result<IssuedAs, Error>)
    requires
        as_keys_are_there(i),
        forall|
            v: Vec<AuthDatum>,
            i: Vec<String>,
            k: EncryptionKey,
            p: Principal,
            g: EncryptionKey,
            x: EncTicketPart,
        | #[trigger]
            call_requires(*indicate, (v, &i, &k, &p, &g, &x)),
        forall|x: Vec<u8>| #[trigger] call_requires(*wrap, (&x,)),
        sign.ready(),
        forall|k: EncryptionKey, u: u32, x: EncTicketPart| #[trigger]
            call_requires(*seal_ticket, (&k, u, &x)),
        forall|e: i32| #[trigger] call_requires(*draw, (e,)),
        forall|e: i32, s: Vec<u8>| #[trigger] call_requires(*describe, (e, &s)),
        forall|e: i32, s: Vec<u8>| #[trigger] call_requires(*describe2, (e, &s)),
        forall|x: Vec<u8>| #[trigger] call_requires(*honour, (&x,)),
        forall|a: EncryptionKey, b: EncryptionKey, p: &str, q: &str| #[trigger]
            call_requires(*combine, (&a, &b, p, q)),
        forall|a: EncryptionKey, t: Ticket, n: PrincipalName, s: String| #[trigger]
            call_requires(*finish, (&a, &t, &n, &s)),
        forall|a: EncryptionKey, l: Vec<PaData>, k: Option<EncryptionKey>, n: u32, d: Vec<u8>|
            #[trigger] call_requires(*layer, (&a, &l, &k, n, &d)),
        forall|k: EncryptionKey, b: Vec<u8>| #[trigger] call_requires(*prove, (&k, &b)),
        forall|k: EncryptionKey, u: u32, p: EncKdcRepPart| #[trigger]
            call_requires(*seal, (&k, u, &p)),
    ensures
        as_reply_result(
            *policy,
            realm@,
            *body,
            i,
            fast,
            working_padata(fast, outer)@,
            *raw,
            extra_ad,
            *indicate,
            *wrap,
            *sign,
            *seal_ticket,
            *draw,
            *combine,
            *describe,
            *describe2,
            *finish,
            *layer,
            *prove,
            *honour,
            *seal,
            r,
        ),
{
    let ghost whole = i;
    let ghost extra0 = extra_ad;
    let asked: &[PaData] = match fast {
        Some(f) => f.padata,
        None => outer,
    };
    let terms = as_terms(&i, realm, body, extra_ad);
    let ghost t0 = terms;
    let t = mint_ticket(terms, indicate, wrap, sign, seal_ticket);
    proof {
        assert(as_ticket_minted(
            whole,
            realm@,
            *body,
            extra0,
            *indicate,
            *wrap,
            *sign,
            *seal_ticket,
            t0,
            t,
        ));
    }
    let ticket = match t {
        Err(e) => {
            return Err(e);
        },
        Ok(x) => x,
    };
    let AsIssue { lookup, pre, plan } = i;
    let AsPreauth { cname, extra_padata, as_rep_key, .. } = pre;
    let mut plan = plan;
    let etype: i32 = lookup.client.keys[lookup.ckey].etype;
    let mut list = extra_padata;
    match plan.kx.take() {
        Some(p) => {
            list.push(p);
        },
        None => {},
    }
    let ghost left = list@;
    if plan.describes_key {
        let mut described = describe_key(
            policy,
            body.etype.as_slice(),
            etype,
            lookup.client.salt.as_slice(),
            describe,
            describe2,
        );
        let ghost d = described@;
        list.append(&mut described);
        proof {
            assert(is_described(
                etype,
                lookup.client.salt@,
                newer_client(*policy, body.etype@),
                *describe,
                *describe2,
                d,
            ));
            assert(list@ =~= left + d);
        }
    }
    let ghost all = list@;
    proof {
        let kx = match whole.plan.kx {
            Some(p) => seq![p],
            None => Seq::empty(),
        };
        assert(left =~= whole.pre.extra_padata@ + kx);
        assert(is_as_padata(*policy, *body, whole, *describe, *describe2, all));
    }
    let k = strengthen(as_rep_key, fast.is_some(), etype, draw, combine);
    proof {
        assert(strengthened_result(
            whole.pre.as_rep_key,
            fast is Some,
            whole.lookup.client.keys@[whole.lookup.ckey as int].etype,
            *draw,
            *combine,
            k,
        ));
    }
    let (reply_key, sk) = match k {
        Err(e) => {
            return Err(e);
        },
        Ok(x) => x,
    };
    let l = reply_padata(list, fast, &sk, &ticket, &cname, &plan.crealm, finish, layer);
    proof {
        assert(reply_padata_result(
            all,
            fast,
            sk,
            ticket,
            whole.pre.cname,
            whole.plan.crealm,
            *finish,
            *layer,
            l,
        ));
    }
    let padata = match l {
        Err(e) => {
            return Err(e);
        },
        Ok(x) => x,
    };
    let p = reply_proof(plan.want_enc_pa, &reply_key, raw, prove);
    proof {
        assert(proof_result(plan.want_enc_pa, reply_key, *raw, *prove, p));
    }
    let proof_data = match p {
        Err(e) => {
            return Err(e);
        },
        Ok(x) => x,
    };
    let rbcd = honour_options(asked, honour);
    let ghost option = rbcd;
    proof {
        assert(honoured(working_padata(fast, outer)@, *honour, option));
    }
    let inner = inner_padata(None, proof_data, rbcd);
    let v = assemble_as_reply(&plan, ticket, realm, body, padata, inner, &reply_key, seal);
    proof {
        lemma_assembled_alike(
            plan,
            whole.plan,
            ticket,
            realm@,
            *body,
            padata,
            inner,
            reply_key,
            *seal,
            v,
        );
        assert(as_assembled(
            whole.plan,
            ticket,
            realm@,
            *body,
            padata,
            inner,
            reply_key,
            *seal,
            v,
        ));
    }
    match v {
        Err(e) => Err(e),
        Ok(rep) => Ok(IssuedAs { rep, session_key: plan.session, as_rep_key: reply_key }),
    }
}

/// A ticket was sealed under this key with this part in it.
pub open spec fn sealed_in_ticket<
    T: Fn(&EncryptionKey, u32, &EncTicketPart) -> Result<Vec<u8>, Error>,
>(seal_ticket: T, key: EncryptionKey, x: EncTicketPart, ticket: Ticket) -> bool {
    exists|c: Vec<u8>|
        c@ == ticket.enc_part.cipher@ && #[trigger] call_ensures(
            seal_ticket,
            (&key, KU_TICKET, &x),
            Ok(c),
        )
}

/// A reply was sealed with this part in it.
pub open spec fn sealed_in_reply<
    E: Fn(&EncryptionKey, u32, &EncKdcRepPart) -> Result<Vec<u8>, Error>,
>(seal: E, key: EncryptionKey, usage: u32, p: EncKdcRepPart, rep: KdcRep) -> bool {
    call_ensures(seal, (&key, usage, &p), Ok::<Vec<u8>, Error>(rep.enc_part.cipher))
}

/// What is inside the ticket and what is inside the reply agree: the session key,
/// the flags and the times are the same, and the reply names the ticket's server
/// and realm.
pub open spec fn parts_agree(
    x: EncTicketPart,
    p: EncKdcRepPart,
    ticket: Ticket,
    session: EncryptionKey,
) -> bool {
    &&& key_octets(x.key) == key_octets(session)
    &&& key_octets(p.key) == key_octets(session)
    &&& x.flags == p.flags
    &&& x.authtime == p.authtime
    &&& x.starttime == p.starttime
    &&& x.endtime == p.endtime
    &&& x.renew_till == p.renew_till
    &&& p.sname@ == ticket.sname@
    &&& p.srealm@ == ticket.realm@
}

/// A ticket that was minted was sealed with a part as its terms say.
pub proof fn lemma_minted_part<
    A: Fn(
        Vec<AuthDatum>,
        &Vec<String>,
        &EncryptionKey,
        &Principal,
        &EncryptionKey,
        &EncTicketPart,
    ) -> Result<Vec<AuthDatum>, Error>,
    B: Fn(&Vec<u8>) -> Result<Vec<AuthDatum>, Error>,
    S: PacSigner,
    T: Fn(&EncryptionKey, u32, &EncTicketPart) -> Result<Vec<u8>, Error>,
>(indicate: A, wrap: B, sign: S, seal_ticket: T, t: MintTerms, ticket: Ticket)
    requires
        mint_result(indicate, wrap, sign, seal_ticket, t, Ok(ticket)),
    ensures
        exists|x: EncTicketPart, ad: Option<Seq<AuthDatum>>|
            #[trigger] is_part(x, t, ad) && sealed_in_ticket(seal_ticket, t.service_key, x, ticket),
        is_ticket(ticket, t, ticket.enc_part.cipher@),
{
    if t.no_auth_data {
        lemma_minted_extra(wrap, sign, seal_ticket, t, t.extra@, ticket);
    } else {
        let v = choose|v: Result<Vec<AuthDatum>, Error>| #[trigger]
            with_indicators(indicate, t, v) && (match v {
                Err(e) => false,
                Ok(extra) => extra_result(wrap, sign, seal_ticket, t, extra@, Ok(ticket)),
            });
        lemma_minted_extra(wrap, sign, seal_ticket, t, (v->Ok_0)@, ticket);
    }
}

proof fn lemma_minted_extra<
    B: Fn(&Vec<u8>) -> Result<Vec<AuthDatum>, Error>,
    S: PacSigner,
    T: Fn(&EncryptionKey, u32, &EncTicketPart) -> Result<Vec<u8>, Error>,
>(wrap: B, sign: S, seal_ticket: T, t: MintTerms, extra: Seq<AuthDatum>, ticket: Ticket)
    requires
        extra_result(wrap, sign, seal_ticket, t, extra, Ok(ticket)),
    ensures
        exists|x: EncTicketPart, ad: Option<Seq<AuthDatum>>|
            #[trigger] is_part(x, t, ad) && sealed_in_ticket(seal_ticket, t.service_key, x, ticket),
        is_ticket(ticket, t, ticket.enc_part.cipher@),
{
    let ad = if t.include_pac {
        let h = choose|h: Result<Vec<AuthDatum>, Error>| #[trigger]
            wrapped_pac(wrap, seq![0u8], h) && (match h {
                Err(e) => false,
                Ok(v) => exists|p: Result<Vec<u8>, Error>| #[trigger]
                    signed_pac(sign, t, v@ + extra, p) && (match p {
                        Err(e) => false,
                        Ok(pac) => signed_result(wrap, seal_ticket, t, extra, pac@, Ok(ticket)),
                    }),
            });
        let p = choose|p: Result<Vec<u8>, Error>| #[trigger]
            signed_pac(sign, t, (h->Ok_0)@ + extra, p) && (match p {
                Err(e) => false,
                Ok(pac) => signed_result(wrap, seal_ticket, t, extra, pac@, Ok(ticket)),
            });
        let w = choose|w: Result<Vec<AuthDatum>, Error>| #[trigger]
            wrapped_pac(wrap, (p->Ok_0)@, w) && (match w {
                Err(e) => false,
                Ok(v) => sealed_result(seal_ticket, t, Some(v@ + extra), Ok(ticket)),
            });
        Some((w->Ok_0)@ + extra)
    } else if extra.len() == 0 {
        None
    } else {
        Some(extra)
    };
    assert(sealed_result(seal_ticket, t, ad, Ok(ticket)));
    let c = choose|c: Result<Vec<u8>, Error>| #[trigger]
        sealed_part(seal_ticket, t, ad, c) && (match c {
            Err(e) => false,
            Ok(cipher) => is_ticket(ticket, t, cipher@),
        });
    let x = choose|x: EncTicketPart|
        is_part(x, t, ad) && #[trigger] call_ensures(
            seal_ticket,
            (&t.service_key, KU_TICKET, &x),
            c,
        );
    assert(c == Ok::<Vec<u8>, Error>(c->Ok_0));
    assert(is_part(x, t, ad) && sealed_in_ticket(seal_ticket, t.service_key, x, ticket));
}

/// The key in the ticket is the key in the encrypted part of the reply, and the
/// session key that is handed out; ticket and reply agree on flags, times, server
/// and realm; the ticket is under the server's key; the encrypted part is under the
/// reply key that is handed out, which is that of pre-authentication where there is no
/// FAST layer, says the nonce of the plan and carries no key version.
pub proof fn law_as_session_key_is_shared<
    A: Fn(
        Vec<AuthDatum>,
        &Vec<String>,
        &EncryptionKey,
        &Principal,
        &EncryptionKey,
        &EncTicketPart,
    ) -> Result<Vec<AuthDatum>, Error>,
    B: Fn(&Vec<u8>) -> Result<Vec<AuthDatum>, Error>,
    S: PacSigner,
    T: Fn(&EncryptionKey, u32, &EncTicketPart) -> Result<Vec<u8>, Error>,
    D: Fn(i32) -> Result<EncryptionKey, Error>,
    C: Fn(&EncryptionKey, &EncryptionKey, &str, &str) -> Result<EncryptionKey, Error>,
    X: Fn(i32, &Vec<u8>) -> Option<Vec<u8>>,
    Y: Fn(i32, &Vec<u8>) -> Option<Vec<u8>>,
    F: Fn(&EncryptionKey, &Ticket, &PrincipalName, &String) -> Result<Vec<u8>, Error>,
    W: Fn(
        &EncryptionKey,
        &Vec<PaData>,
        &Option<EncryptionKey>,
        u32,
        &Vec<u8>,
    ) -> Result<PaData, Error>,
    P: Fn(&EncryptionKey, &Vec<u8>) -> Result<Vec<PaData>, Error>,
    H: Fn(&Vec<u8>) -> Option<Vec<u8>>,
    E: Fn(&EncryptionKey, u32, &EncKdcRepPart) -> Result<Vec<u8>, Error>,
>(
    policy: Policy,
    realm: Seq<char>,
    body: KdcReqBody,
    i: AsIssue,
    fast: Option<&FastFacts>,
    asked: Seq<PaData>,
    raw: Vec<u8>,
    extra_ad: Vec<AuthDatum>,
    indicate: A,
    wrap: B,
    sign: S,
    seal_ticket: T,
    draw: D,
    combine: C,
    describe: X,
    describe2: Y,
    finish: F,
    layer: W,
    prove: P,
    honour: H,
    seal: E,
    y: IssuedAs,
)
    requires
        as_reply_result(
            policy,
            realm,
            body,
            i,
            fast,
            asked,
            raw,
            extra_ad,
            indicate,
            wrap,
            sign,
            seal_ticket,
            draw,
            combine,
            describe,
            describe2,
            finish,
            layer,
            prove,
            honour,
            seal,
            Ok(y),
        ),
    ensures
        exists|key: EncryptionKey, x: EncTicketPart, p: EncKdcRepPart|
            {
                &&& #[trigger] sealed_in_ticket(seal_ticket, key, x, y.rep.ticket)
                &&& #[trigger] sealed_in_reply(seal, y.as_rep_key, KU_AS_REP, p, y.rep)
                &&& key_octets(key) == i.lookup.server.keys@[i.plan.server_key as int].octets()
                &&& parts_agree(x, p, y.rep.ticket, y.session_key)
                &&& p.nonce == i.plan.nonce
                &&& x.flags == i.plan.times.flags
                &&& x.cname@ == i.pre.cname@
                &&& x.crealm@ == i.plan.crealm@
            },
        y.session_key == i.plan.session,
        fast is None ==> y.as_rep_key == i.pre.as_rep_key,
        y.rep.ticket.realm@ == realm,
        y.rep.ticket.sname@ == i.plan.sname@,
        y.rep.enc_part.kvno is None,
        y.rep.enc_part.etype == y.as_rep_key.keytype,
        y.rep.cname@ == i.plan.rep_cname@,
        y.rep.crealm@ == i.plan.rep_crealm@,
{
    let (terms, t) = choose|terms: MintTerms, t: Result<Ticket, Error>|
        {
            &&& #[trigger] as_ticket_minted(
                i,
                realm,
                body,
                extra_ad,
                indicate,
                wrap,
                sign,
                seal_ticket,
                terms,
                t,
            )
            &&& match t {
                Err(e) => false,
                Ok(ticket) => as_minted_result(
                    policy,
                    i,
                    realm,
                    body,
                    fast,
                    asked,
                    raw,
                    ticket,
                    draw,
                    combine,
                    describe,
                    describe2,
                    finish,
                    layer,
                    prove,
                    honour,
                    seal,
                    Ok(y),
                ),
            }
        };
    let ticket = t->Ok_0;
    lemma_minted_part(indicate, wrap, sign, seal_ticket, terms, ticket);
    let (x, ad) = choose|x: EncTicketPart, ad: Option<Seq<AuthDatum>>|
        #[trigger] is_part(x, terms, ad) && sealed_in_ticket(
            seal_ticket,
            terms.service_key,
            x,
            ticket,
        );
    let key = y.as_rep_key;
    let padata = y.rep.padata;
    assert(exists|inner: Option<Vec<PaData>>| #[trigger]
        as_assembled(i.plan, ticket, realm, body, padata, inner, key, seal, Ok(y.rep)));
    let inner = choose|inner: Option<Vec<PaData>>| #[trigger]
        as_assembled(i.plan, ticket, realm, body, padata, inner, key, seal, Ok(y.rep));
    let (p, c) = choose|p: EncKdcRepPart, c: Result<Vec<u8>, Error>| #[trigger]
        as_part_sealed(i.plan, realm, body, inner, key, seal, p, c) && (match c {
            Err(e) => false,
            Ok(cipher) => y.rep.enc_part.cipher == cipher && y.rep.ticket == ticket,
        });
    assert(c == Ok::<Vec<u8>, Error>(y.rep.enc_part.cipher));
    assert(sealed_in_ticket(seal_ticket, terms.service_key, x, y.rep.ticket) && sealed_in_reply(
        seal,
        y.as_rep_key,
        KU_AS_REP,
        p,
        y.rep,
    ) && parts_agree(x, p, y.rep.ticket, y.session_key));
}

/// The session key of a client that is not anonymous is the one that was drawn,
/// and nothing goes out for it; an anonymous client gets another datum.
pub proof fn law_drawn_key_is_the_session<
    X: Fn(&EncryptionKey, u32, &EncryptionKey) -> Result<Vec<u8>, Error>,
    C: Fn(&EncryptionKey, &EncryptionKey, &str, &str) -> Result<EncryptionKey, Error>,
>(
    drawn: Result<EncryptionKey, Error>,
    anonymous: bool,
    reply_key: EncryptionKey,
    exchange: X,
    combine: C,
    r: Result<AsSession, Error>,
)
    requires
        as_session_result(drawn, anonymous, reply_key, exchange, combine, r),
    ensures
        drawn matches Err(e) ==> r == Err::<AsSession, Error>(e),
        drawn matches Ok(k) ==> !anonymous ==> r == Ok::<AsSession, Error>(
            AsSession { key: k, kx: None },
        ),
        r matches Ok(s) ==> (s.kx is Some <==> anonymous),
        r matches Ok(s) ==> s.kx matches Some(p) ==> p.padata_type == 147,
{
}

/// Without a FAST layer the reply key stays as it is; with one it is combined
/// with a fresh key, which goes out.
pub proof fn law_layer_strengthens_the_key<
    D: Fn(i32) -> Result<EncryptionKey, Error>,
    C: Fn(&EncryptionKey, &EncryptionKey, &str, &str) -> Result<EncryptionKey, Error>,
>(
    key: EncryptionKey,
    fast: bool,
    etype: i32,
    draw: D,
    combine: C,
    r: Result<(EncryptionKey, Option<EncryptionKey>), Error>,
)
    requires
        strengthened_result(key, fast, etype, draw, combine, r),
    ensures
        !fast ==> r == Ok::<(EncryptionKey, Option<EncryptionKey>), Error>(
            (key, None::<EncryptionKey>),
        ),
        r matches Ok(t) ==> (t.1 is Some <==> fast),
        r matches Ok(t) ==> fast ==> call_ensures(
            combine,
            (&t.1->0, &key, "strengthenkey", "replykey"),
            Ok::<EncryptionKey, Error>(t.0),
        ),
{
}

/// Without a FAST layer the padata of a reply go out as they are, and an empty
/// list is left out; with one there is just the datum of the layer.
pub proof fn law_padata_go_out<
    F: Fn(&EncryptionKey, &Ticket, &PrincipalName, &String) -> Result<Vec<u8>, Error>,
    W: Fn(
        &EncryptionKey,
        &Vec<PaData>,
        &Option<EncryptionKey>,
        u32,
        &Vec<u8>,
    ) -> Result<PaData, Error>,
>(
    list: Seq<PaData>,
    fast: Option<&FastFacts>,
    strengthening: Option<EncryptionKey>,
    ticket: Ticket,
    cname: PrincipalName,
    crealm: String,
    finish: F,
    layer: W,
    r: Result<Option<Vec<PaData>>, Error>,
)
    requires
        reply_padata_result(
            list,
            fast,
            strengthening,
            ticket,
            cname,
            crealm,
            finish,
            layer,
            r,
        ),
    ensures
        fast is None ==> r is Ok && (r->Ok_0 is None <==> list.len() == 0) && (r->Ok_0 is Some
            ==> r->Ok_0->0@ == list),
        r matches Ok(v) ==> fast is Some ==> v is Some && v->0@.len() == 1,
{
}

/// Nothing is proved of a request where that was not asked for.
pub proof fn law_proof_is_made_on_request<
    P: Fn(&EncryptionKey, &Vec<u8>) -> Result<Vec<PaData>, Error>,
>(
    wanted: bool,
    key: EncryptionKey,
    raw: Vec<u8>,
    prove: P,
    p: Result<Option<Vec<PaData>>, Error>,
)
    requires
        proof_result(wanted, key, raw, prove, p),
    ensures
        !wanted ==> p == Ok::<Option<Vec<PaData>>, Error>(None),
        p matches Ok(v) ==> (v is Some <==> wanted),
{
}

/// A PAC option is honoured only where the request has one.
pub proof fn law_option_is_honoured_on_request<H: Fn(&Vec<u8>) -> Option<Vec<u8>>>(
    padata: Seq<PaData>,
    honour: H,
    rbcd: Option<Vec<u8>>,
)
    requires
        honoured(padata, honour, rbcd),
        forall|i: int| 0 <= i < padata.len() ==> (#[trigger] padata[i]).padata_type != 167,
    ensures
        rbcd is None,
{
}

} // verus!
