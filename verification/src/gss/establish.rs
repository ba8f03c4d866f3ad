//! Establishing a context from one end to the other: what is made and verified
//! under a key comes in as functions.

use crate::audit::record::{contains_text, text_at};
use crate::bytes::get_le32;
use crate::gss::context::{
    accepted_flags, ap_req_inner, ap_req_token, asked_flags, authenticator_checksum, bare_token,
    checksum_flags, checksum_result, delegated_result, extract_delegated, initial_checksum,
    initiator_flags, is_accepted, is_initiated, law_accepted_context_flags, pinned_kvnos,
    process_checksum, random_subkey, AcceptFacts, ApChecksum, ChannelBindings, DelegatedFacts,
    GssContext,
};
use crate::gss::deleg::{cred_result, krb_cred_for_deleg, CredMessage, CredPart, DelegCred};
use crate::gss::error::Error;
use crate::gss::oid::{gss_wrap_app, wrapped_app, GSS_CHECKSUM_TYPE, GSS_C_MUTUAL};
use crate::gss::spnego::{slice_view, TOK_AP_REP, TOK_AP_REQ};
use crate::msg::{key_octets, EncryptionKey, Ticket};
use crate::name::PrincipalName;
use vstd::prelude::*;

verus! {

/// What verifying an AP-REQ gave.
#[derive(Debug, PartialEq, Eq)]
pub struct VerifiedReq {
    /// What the ticket and the authenticator say.
    pub facts: AcceptFacts,
    /// The checksum of the authenticator.
    pub cksum: Option<ApChecksum>,
    /// The request asks for mutual authentication.
    pub mutual_required: bool,
    /// Whether the client insists on channel bindings, where that could be
    /// read.
    pub cbt: Result<bool, Error>,
    /// Time of the authenticator.
    pub ctime: u32,
    /// Microseconds of that time.
    pub cusec: u32,
}

/// Why an AP-REQ was not verified.
#[derive(Clone, Debug, PartialEq, Eq)]
pub enum VerifyError {
    /// The crypto layer failed with a text; `shown` is that of the whole
    /// failure.
    Crypto {
        /// What the crypto layer said.
        said: String,
        /// The text of the failure.
        shown: String,
    },
    /// Another failure, with its text.
    Other(String),
}

/// The failure of an acceptor whose AP-REQ was not verified.
pub open spec fn is_verify_failure(e: VerifyError, r: Error) -> bool {
    match e {
        VerifyError::Crypto { said, shown } => if exists|i: int|
            text_at(said@, "integrity"@, i) {
            r == Error::Integrity
        } else {
            r == Error::Inner(shown)
        },
        VerifyError::Other(shown) => r == Error::Inner(shown),
    }
}

/// The failure of an acceptor whose AP-REQ was not verified.
fn verify_failure(e: VerifyError) -> (r: Error)
    ensures
        is_verify_failure(e, r),
{
    match e {
        VerifyError::Crypto { said, shown } => {
            if contains_text(said.as_str(), "integrity") {
                Error::Integrity
            } else {
                Error::Inner(shown)
            }
        },
        VerifyError::Other(shown) => Error::Inner(shown),
    }
}

/// `verify` gave `v` of the AP-REQ with these octets, under these keys, for a server
/// of this name and realm.
pub open spec fn verified<
    V: Fn(
        &Vec<u8>,
        &[EncryptionKey],
        Option<&[u32]>,
        Option<&PrincipalName>,
        Option<&str>,
    ) -> Result<VerifiedReq, VerifyError>,
>(
    verify: V,
    ap_req: Seq<u8>,
    keys: &[EncryptionKey],
    kvnos: Option<&[u32]>,
    server: Option<&PrincipalName>,
    realm: Option<&str>,
    v: Result<VerifiedReq, VerifyError>,
) -> bool {
    exists|x: Vec<u8>|
        x@ == ap_req && #[trigger] call_ensures(verify, (&x, keys, kvnos, server, realm), v)
}

/// `answer` gave `d` for the AP-REP to a verified request.
pub open spec fn answered<P: Fn(&EncryptionKey, u32, u32) -> Result<Vec<u8>, Error>>(
    answer: P,
    q: VerifiedReq,
    d: Result<Vec<u8>, Error>,
) -> bool {
    exists|k: EncryptionKey|
        key_octets(k) == key_octets(q.facts.ticket_session) && #[trigger] call_ensures(
            answer,
            (&k, q.ctime, q.cusec),
            d,
        )
}

/// The acceptor's token with an AP-REP: bare in three-leg style, else in its
/// frame.
pub open spec fn ap_rep_frame(der: Seq<u8>, dce_style: bool) -> Seq<u8> {
    if dce_style {
        der
    } else {
        wrapped_app(TOK_AP_REP@, der)
    }
}

/// What accepting a verified request comes to, its checksum judged.
pub open spec fn judged_result<P: Fn(&EncryptionKey, u32, u32) -> Result<Vec<u8>, Error>>(
    answer: P,
    q: VerifiedReq,
    dce_style: bool,
    judged: Result<(u32, Option<String>), Error>,
    r: Result<(GssContext, Option<Vec<u8>>), Error>,
) -> bool {
    match judged {
        Err(e) => r matches Err(x) && x == e,
        Ok(j) => if accepted_flags(j.0, dce_style) & GSS_C_MUTUAL == 0 {
            r matches Ok(t) && is_accepted(t.0, q.facts, dce_style, j) && t.1 is None
        } else {
            exists|d: Result<Vec<u8>, Error>|
                {
                    &&& #[trigger] answered(answer, q, d)
                    &&& match d {
                        Err(e) => r matches Err(x) && x == e,
                        Ok(der) => r matches Ok(t) && is_accepted(t.0, q.facts, dce_style, j)
                            && (t.1 matches Some(tok) && tok@ == ap_rep_frame(der@, dce_style)),
                    }
                }
        },
    }
}

/// What came of taking delegated credentials out of the checksum of a verified
/// request.
pub open spec fn carried<O: Fn(&EncryptionKey, &Vec<u8>) -> Option<DelegatedFacts>>(
    q: VerifiedReq,
    open: O,
    d: Result<Option<String>, Error>,
) -> bool {
    match q.cksum {
        Some(c) if c.cksumtype == GSS_CHECKSUM_TYPE && c.checksum@.len() >= 28 => delegated_result(
            c.checksum@,
            checksum_flags(c.checksum@),
            q.facts.subkey,
            q.facts.ticket_session,
            open,
            d,
        ),
        _ => d matches Ok(o) && o is None,
    }
}

/// What accepting a verified request comes to: its delegated credentials are
/// opened, then its checksum is judged.
pub open spec fn verified_result<
    O: Fn(&EncryptionKey, &Vec<u8>) -> Option<DelegatedFacts>,
    P: Fn(&EncryptionKey, u32, u32) -> Result<Vec<u8>, Error>,
>(
    q: VerifiedReq,
    bindings: Option<&ChannelBindings>,
    open: O,
    answer: P,
    dce_style: bool,
    r: Result<(GssContext, Option<Vec<u8>>), Error>,
) -> bool {
    exists|d: Result<Option<String>, Error>, judged: Result<(u32, Option<String>), Error>|
        {
            &&& #[trigger] carried(q, open, d)
            &&& #[trigger] checksum_result(
                q.cksum,
                q.mutual_required,
                bindings,
                d,
                q.cbt,
                judged,
            )
            &&& judged_result(answer, q, dce_style, judged, r)
        }
}

/// What accepting an initial token comes to.
pub open spec fn accept_result<
    V: Fn(
        &Vec<u8>,
        &[EncryptionKey],
        Option<&[u32]>,
        Option<&PrincipalName>,
        Option<&str>,
    ) -> Result<VerifiedReq, VerifyError>,
    O: Fn(&EncryptionKey, &Vec<u8>) -> Option<DelegatedFacts>,
    P: Fn(&EncryptionKey, u32, u32) -> Result<Vec<u8>, Error>,
>(
    token: Seq<u8>,
    keys: &[EncryptionKey],
    kvnos: Option<&[u32]>,
    bindings: Option<&ChannelBindings>,
    server: Option<&PrincipalName>,
    realm: Option<&str>,
    verify: V,
    open: O,
    answer: P,
    r: Result<(GssContext, Option<Vec<u8>>), Error>,
) -> bool {
    if keys@.len() == 0 {
        r matches Err(x) && x == Error::Truncated
    } else {
        match ap_req_inner(token) {
            None => r matches Err(x) && x == Error::Truncated,
            Some(ap_req) => exists|v: Result<VerifiedReq, VerifyError>|
                {
                    &&& #[trigger] verified(verify, ap_req, keys, kvnos, server, realm, v)
                    &&& match v {
                        Err(e) => r matches Err(x) && is_verify_failure(e, x),
                        Ok(q) => verified_result(q, bindings, open, answer, bare_token(token), r),
                    }
                },
        }
    }
}

/// What an initiator puts into its AP-REQ.
#[derive(Clone, Debug, PartialEq, Eq)]
pub struct InitRequest {
    /// Mutual authentication is required.
    pub mutual: bool,
    /// The checksum of the authenticator.
    pub cksum: ApChecksum,
    /// The subkey of the authenticator.
    pub subkey: EncryptionKey,
}

/// `q` is a request for a context with these properties.
pub open spec fn is_request(
    q: InitRequest,
    sub: EncryptionKey,
    mutual: bool,
    bindings: Option<&ChannelBindings>,
    deleg: Option<Seq<u8>>,
) -> bool {
    &&& q.mutual == mutual
    &&& q.cksum.cksumtype == GSS_CHECKSUM_TYPE
    &&& q.cksum.checksum@ == initial_checksum(bindings, asked_flags(mutual, deleg is Some), deleg)
    &&& key_octets(q.subkey) == key_octets(sub)
}

/// `build` gave `d` for the AP-REQ of a request with these properties: for this
/// ticket, under its session key, by this client.
pub open spec fn request_built<
    B: Fn(
        &Ticket,
        &EncryptionKey,
        &String,
        &PrincipalName,
        &InitRequest,
    ) -> Result<Vec<u8>, Error>,
>(
    build: B,
    ticket: Ticket,
    session: EncryptionKey,
    crealm: String,
    cname: PrincipalName,
    sub: EncryptionKey,
    mutual: bool,
    bindings: Option<&ChannelBindings>,
    deleg: Option<Seq<u8>>,
    d: Result<Vec<u8>, Error>,
) -> bool {
    exists|q: InitRequest|
        is_request(q, sub, mutual, bindings, deleg) && #[trigger] call_ensures(
            build,
            (&ticket, &session, &crealm, &cname, &q),
            d,
        )
}

/// What making an initial token around a subkey comes to: it succeeds where,
/// and only where, the AP-REQ could be made.
pub open spec fn init_result<
    N: Fn(&PrincipalName, &String) -> String,
    B: Fn(
        &Ticket,
        &EncryptionKey,
        &String,
        &PrincipalName,
        &InitRequest,
    ) -> Result<Vec<u8>, Error>,
>(
    sub: EncryptionKey,
    ticket: Ticket,
    session: EncryptionKey,
    crealm: String,
    cname: PrincipalName,
    mutual: bool,
    bindings: Option<&ChannelBindings>,
    deleg: Option<Seq<u8>>,
    unparse: N,
    build: B,
    r: Result<(GssContext, Vec<u8>), Error>,
) -> bool {
    exists|client: String, d: Result<Vec<u8>, Error>|
        {
            &&& #[trigger] call_ensures(unparse, (&cname, &crealm), client)
            &&& #[trigger] request_built(
                build,
                ticket,
                session,
                crealm,
                cname,
                sub,
                mutual,
                bindings,
                deleg,
                d,
            )
            &&& match d {
                Err(e) => r matches Err(x) && x == e,
                Ok(der) => r matches Ok(t) && is_initiated(
                    t.0,
                    sub,
                    client,
                    crealm,
                    asked_flags(mutual, deleg is Some),
                ) && t.1@ == wrapped_app(TOK_AP_REQ@, der@),
            }
        }
}

/// The octets of delegated credentials.
pub open spec fn creds_octets(deleg: Option<Vec<u8>>) -> Option<Seq<u8>> {
    match deleg {
        Some(v) => Some(v@),
        None => None,
    }
}

/// `c` is what making the delegated credentials comes to, where there are any to
/// hand on.
pub open spec fn creds_made<
    E: Fn(&EncryptionKey, u32, &CredPart) -> Result<Vec<u8>, Error>,
    W: Fn(&CredMessage) -> Result<Vec<u8>, Error>,
>(
    session: EncryptionKey,
    deleg: Option<DelegCred>,
    now: (u32, u32),
    seal: E,
    encode: W,
    c: Result<Option<Vec<u8>>, Error>,
) -> bool {
    match deleg {
        None => c == Ok::<Option<Vec<u8>>, Error>(None),
        Some(d) => exists|v: Result<Vec<u8>, Error>| #[trigger]
            cred_result(session, d, now, seal, encode, v) && (match v {
                Ok(o) => c == Ok::<Option<Vec<u8>>, Error>(Some(o)),
                Err(e) => c == Err::<Option<Vec<u8>>, Error>(e),
            }),
    }
}

/// What making an initial token comes to once its delegated credentials are there: a
/// subkey of the type and length of the session key is drawn, which may fail.
pub open spec fn drawn_result<
    N: Fn(&PrincipalName, &String) -> String,
    B: Fn(
        &Ticket,
        &EncryptionKey,
        &String,
        &PrincipalName,
        &InitRequest,
    ) -> Result<Vec<u8>, Error>,
>(
    ticket: Ticket,
    session: EncryptionKey,
    crealm: String,
    cname: PrincipalName,
    mutual: bool,
    bindings: Option<&ChannelBindings>,
    deleg: Option<Seq<u8>>,
    unparse: N,
    build: B,
    r: Result<(GssContext, Vec<u8>), Error>,
) -> bool {
    ||| r matches Err(e) && e is Inner
    ||| exists|sub: EncryptionKey|
        sub.keytype == session.keytype && sub.keyvalue@.len() == session.keyvalue@.len()
            && #[trigger] init_result(
            sub,
            ticket,
            session,
            crealm,
            cname,
            mutual,
            bindings,
            deleg,
            unparse,
            build,
            r,
        )
}

impl GssContext {
    /// Accepts an initial token under service keys, of the versions `kvnos` where
    /// those are known; these count only where the server is named. The ticket has
    /// to be for that server and realm, where they are given. `verify` verifies the
    /// AP-REQ under those keys for that server, `open` opens delegated credentials,
    /// and `answer` makes the AP-REP under the ticket's session key.
    pub fn accept_sec_context_kt<
        V: Fn(
            &Vec<u8>,
            &[EncryptionKey],
            Option<&[u32]>,
            Option<&PrincipalName>,
            Option<&str>,
        ) -> Result<VerifiedReq, VerifyError>,
        O: Fn(&EncryptionKey, &Vec<u8>) -> Option<DelegatedFacts>,
        P: Fn(&EncryptionKey, u32, u32) -> Result<Vec<u8>, Error>,
    >(
        token: &[u8],
        keys: &[EncryptionKey],
        kvnos: Option<&[u32]>,
        bindings: Option<&ChannelBindings>,
        server: Option<&PrincipalName>,
        realm: Option<&str>,
        verify: V,
        open: O,
        answer: P,
    ) -> (r: Result<(GssContext, Option<Vec<u8>>), Error>)
        requires
            forall|
                x: Vec<u8>,
                s: &[EncryptionKey],
                k: Option<&[u32]>,
                n: Option<&PrincipalName>,
                m: Option<&str>,
            | #[trigger]
                call_requires(verify, (&x, s, k, n, m)),
            forall|k: EncryptionKey, x: Vec<u8>| #[trigger] call_requires(open, (&k, &x)),
            forall|k: EncryptionKey, t: u32, u: u32| #[trigger] call_requires(answer, (&k, t, u)),
        ensures
            accept_result(
                token@,
                keys,
                if server is Some {
                    kvnos
                } else {
                    None
                },
                bindings,
                server,
                realm,
                verify,
                open,
                answer,
                r,
            ),
    {
        if keys.len() == 0 {
            return Err(Error::Truncated);
        }
        let (ap_req, dce_style): (Vec<u8>, bool) = match ap_req_token(token) {
            Err(e) => {
                return Err(e);
            },
            Ok(t) => t,
        };
        let pinned = pinned_kvnos(server.is_some(), kvnos);
        let v = verify(&ap_req, keys, pinned, server, realm);
        proof {
            assert(verified(verify, ap_req@, keys, pinned, server, realm, v));
        }
        let q = match v {
            Err(e) => {
                return Err(verify_failure(e));
            },
            Ok(q) => q,
        };
        let ghost whole = q;
        let VerifiedReq { facts, cksum, mutual_required, cbt, ctime, cusec } = q;
        let key = facts.ticket_session.copy();
        let delegated: Result<Option<String>, Error> = match &cksum {
            Some(c) => if c.cksumtype == GSS_CHECKSUM_TYPE && c.checksum.len() >= 28 {
                let raw = c.checksum.as_slice();
                extract_delegated(
                    raw,
                    get_le32(raw, 20),
                    &facts.subkey,
                    &facts.ticket_session,
                    &open,
                )
            } else {
                Ok(None)
            },
            None => Ok(None),
        };
        let ghost opened = delegated;
        let judged = process_checksum(&cksum, mutual_required, bindings, delegated, cbt);
        proof {
            assert(carried(whole, open, opened));
            assert(checksum_result(
                whole.cksum,
                whole.mutual_required,
                bindings,
                opened,
                whole.cbt,
                judged,
            ));
        }
        let j = match judged {
            Err(e) => {
                return Err(e);
            },
            Ok(j) => j,
        };
        let (c, owes): (GssContext, bool) = GssContext::accepted(facts, dce_style, j);
        if !owes {
            return Ok((c, None));
        }
        let d = answer(&key, ctime, cusec);
        proof {
            assert(answered(answer, whole, d));
        }
        match d {
            Err(e) => Err(e),
            Ok(der) => {
                if dce_style {
                    Ok((c, Some(der)))
                } else {
                    Ok((c, Some(gss_wrap_app(TOK_AP_REP, der.as_slice()))))
                }
            },
        }
    }

    /// Accepts an initial token under keys whose versions are not known.
    pub fn accept_sec_context<
        V: Fn(
            &Vec<u8>,
            &[EncryptionKey],
            Option<&[u32]>,
            Option<&PrincipalName>,
            Option<&str>,
        ) -> Result<VerifiedReq, VerifyError>,
        O: Fn(&EncryptionKey, &Vec<u8>) -> Option<DelegatedFacts>,
        P: Fn(&EncryptionKey, u32, u32) -> Result<Vec<u8>, Error>,
    >(
        token: &[u8],
        keys: &[EncryptionKey],
        bindings: Option<&ChannelBindings>,
        server: Option<&PrincipalName>,
        realm: Option<&str>,
        verify: V,
        open: O,
        answer: P,
    ) -> (r: Result<(GssContext, Option<Vec<u8>>), Error>)
        requires
            forall|
                x: Vec<u8>,
                s: &[EncryptionKey],
                k: Option<&[u32]>,
                n: Option<&PrincipalName>,
                m: Option<&str>,
            | #[trigger]
                call_requires(verify, (&x, s, k, n, m)),
            forall|k: EncryptionKey, x: Vec<u8>| #[trigger] call_requires(open, (&k, &x)),
            forall|k: EncryptionKey, t: u32, u: u32| #[trigger] call_requires(answer, (&k, t, u)),
        ensures
            accept_result(token@, keys, None, bindings, server, realm, verify, open, answer, r),
    {
        GssContext::accept_sec_context_kt(
            token,
            keys,
            None,
            bindings,
            server,
            realm,
            verify,
            open,
            answer,
        )
    }

    /// Makes an initial token around a subkey: `deleg` holds the delegated
    /// credentials, where there are any; `unparse` writes the client's name with its
    /// realm, and `build` makes the AP-REQ.
    pub fn init_with_subkey<
        N: Fn(&PrincipalName, &String) -> String,
        B: Fn(
            &Ticket,
            &EncryptionKey,
            &String,
            &PrincipalName,
            &InitRequest,
        ) -> Result<Vec<u8>, Error>,
    >(
        sub: EncryptionKey,
        ticket: &Ticket,
        session: &EncryptionKey,
        crealm: String,
        cname: &PrincipalName,
        mutual: bool,
        bindings: Option<&ChannelBindings>,
        deleg: Option<Vec<u8>>,
        unparse: &N,
        build: &B,
    ) -> (r: Result<(GssContext, Vec<u8>), Error>)
        requires
            forall|n: PrincipalName, c: String| #[trigger] call_requires(*unparse, (&n, &c)),
            forall|t: Ticket, k: EncryptionKey, c: String, n: PrincipalName, q: InitRequest|
                #[trigger] call_requires(*build, (&t, &k, &c, &n, &q)),
        ensures
            init_result(
                sub,
                *ticket,
                *session,
                crealm,
                *cname,
                mutual,
                bindings,
                creds_octets(deleg),
                *unparse,
                *build,
                r,
            ),
    {
        let flags: u32 = initiator_flags(mutual, deleg.is_some());
        let octets: Option<&[u8]> = match &deleg {
            Some(v) => Some(v.as_slice()),
            None => None,
        };
        let checksum = authenticator_checksum(bindings, flags, octets);
        let own = sub.copy();
        let q = InitRequest {
            mutual,
            cksum: ApChecksum { cksumtype: GSS_CHECKSUM_TYPE, checksum },
            subkey: own,
        };
        proof {
            assert(slice_view(octets) == creds_octets(deleg));
            assert(is_request(q, sub, mutual, bindings, creds_octets(deleg)));
        }
        let client = unparse(cname, &crealm);
        let ghost name = client;
        let built = build(ticket, session, &crealm, cname, &q);
        proof {
            assert(call_ensures(*unparse, (cname, &crealm), name));
            assert(request_built(
                *build,
                *ticket,
                *session,
                crealm,
                *cname,
                sub,
                mutual,
                bindings,
                creds_octets(deleg),
                built,
            ));
        }
        match built {
            Err(e) => Err(e),
            Ok(der) => Ok(GssContext::initiated(sub, client, crealm, flags, der.as_slice())),
        }
    }

    /// Makes an initial token for a ticket. `deleg` is the credential to hand on, where
    /// there is one, which is sealed under the session key at the time `now` (seconds
    /// and microseconds); `seal` seals it and `encode` writes its message; `unparse`
    /// writes the client's name with its realm, and `build` makes the AP-REQ. The
    /// subkey has the type and the length of the session key, and is drawn at random.
    pub fn init_sec_context<
        E: Fn(&EncryptionKey, u32, &CredPart) -> Result<Vec<u8>, Error>,
        W: Fn(&CredMessage) -> Result<Vec<u8>, Error>,
        N: Fn(&PrincipalName, &String) -> String,
        B: Fn(
            &Ticket,
            &EncryptionKey,
            &String,
            &PrincipalName,
            &InitRequest,
        ) -> Result<Vec<u8>, Error>,
    >(
        ticket: &Ticket,
        session: &EncryptionKey,
        crealm: String,
        cname: &PrincipalName,
        mutual: bool,
        bindings: Option<&ChannelBindings>,
        deleg: Option<DelegCred>,
        now: (u32, u32),
        seal: E,
        encode: W,
        unparse: N,
        build: B,
    ) -> (r: Result<(GssContext, Vec<u8>), Error>)
        requires
            session.keyvalue@.len() <= isize::MAX,
            forall|k: EncryptionKey, u: u32, p: CredPart| #[trigger]
                call_requires(seal, (&k, u, &p)),
            forall|m: CredMessage| #[trigger] call_requires(encode, (&m,)),
            forall|n: PrincipalName, c: String| #[trigger] call_requires(unparse, (&n, &c)),
            forall|t: Ticket, k: EncryptionKey, c: String, n: PrincipalName, q: InitRequest|
                #[trigger] call_requires(build, (&t, &k, &c, &n, &q)),
        ensures
            exists|c: Result<Option<Vec<u8>>, Error>| #[trigger]
                creds_made(*session, deleg, now, seal, encode, c) && (match c {
                    Err(e) => r matches Err(x) && x == e,
                    Ok(creds) => drawn_result(
                        *ticket,
                        *session,
                        crealm,
                        *cname,
                        mutual,
                        bindings,
                        creds_octets(creds),
                        unparse,
                        build,
                        r,
                    ),
                }),
    {
        let c: Result<Option<Vec<u8>>, Error> = match deleg {
            None => Ok(None),
            Some(d) => {
                let v = krb_cred_for_deleg(session, d, now, &seal, &encode);
                assert(cred_result(*session, d, now, seal, encode, v));
                match v {
                    Ok(o) => Ok(Some(o)),
                    Err(e) => Err(e),
                }
            },
        };
        assert(creds_made(*session, deleg, now, seal, encode, c));
        let ghost made = c;
        let creds = match c {
            Err(e) => {
                return Err(e);
            },
            Ok(o) => o,
        };
        let ghost held = creds;
        let sub = match random_subkey(session.keytype, session.keyvalue.len()) {
            Err(e) => {
                return Err(e);
            },
            Ok(k) => k,
        };
        let r = GssContext::init_with_subkey(
            sub,
            ticket,
            session,
            crealm,
            cname,
            mutual,
            bindings,
            creds,
            &unparse,
            &build,
        );
        proof {
            assert(made == Ok::<Option<Vec<u8>>, Error>(held));
            assert(init_result(
                sub,
                *ticket,
                *session,
                crealm,
                *cname,
                mutual,
                bindings,
                creds_octets(held),
                unparse,
                build,
                r,
            ));
        }
        r
    }
}

/// The text of a failure says that there is no key of a version.
pub open spec fn tells_missing_version(t: Seq<char>) -> bool {
    (exists|i: int| text_at(t, "44"@, i)) && (exists|i: int| text_at(t, "Cannot find key for"@, i))
}

/// A request whose key version is none of those that the acceptor has for the
/// server it is named for is refused with the text that says so: `verify` is handed
/// those versions, and where it refuses with that text, so does the acceptor.
pub proof fn law_wrong_key_version_is_refused<
    V: Fn(
        &Vec<u8>,
        &[EncryptionKey],
        Option<&[u32]>,
        Option<&PrincipalName>,
        Option<&str>,
    ) -> Result<VerifiedReq, VerifyError>,
    O: Fn(&EncryptionKey, &Vec<u8>) -> Option<DelegatedFacts>,
    P: Fn(&EncryptionKey, u32, u32) -> Result<Vec<u8>, Error>,
>(
    token: Seq<u8>,
    keys: &[EncryptionKey],
    kvnos: &[u32],
    kvno: u32,
    bindings: Option<&ChannelBindings>,
    server: &PrincipalName,
    realm: Option<&str>,
    verify: V,
    open: O,
    answer: P,
    r: Result<(GssContext, Option<Vec<u8>>), Error>,
)
    requires
        keys@.len() > 0,
        ap_req_inner(token) is Some,
        forall|x: Vec<u8>, k: &[u32], v: Result<VerifiedReq, VerifyError>|
            Some(x@) == ap_req_inner(token) && !k@.contains(kvno) && #[trigger] call_ensures(
                verify,
                (&x, keys, Some(k), Some(server), realm),
                v,
            ) ==> (v matches Err(VerifyError::Other(shown)) && tells_missing_version(shown@)),
        !kvnos@.contains(kvno),
        accept_result(
            token,
            keys,
            Some(kvnos),
            bindings,
            Some(server),
            realm,
            verify,
            open,
            answer,
            r,
        ),
    ensures
        r matches Err(Error::Inner(shown)) && tells_missing_version(shown@),
{
}

/// A key version decides nothing but whether a request is verified: where the
/// version of its ticket is among those of the acceptor, it comes to what it
/// comes to where the versions are not known.
pub proof fn law_right_key_version_decides_nothing<
    V: Fn(
        &Vec<u8>,
        &[EncryptionKey],
        Option<&[u32]>,
        Option<&PrincipalName>,
        Option<&str>,
    ) -> Result<VerifiedReq, VerifyError>,
    O: Fn(&EncryptionKey, &Vec<u8>) -> Option<DelegatedFacts>,
    P: Fn(&EncryptionKey, u32, u32) -> Result<Vec<u8>, Error>,
>(
    token: Seq<u8>,
    keys: &[EncryptionKey],
    kvnos: &[u32],
    kvno: u32,
    bindings: Option<&ChannelBindings>,
    server: &PrincipalName,
    realm: Option<&str>,
    verify: V,
    open: O,
    answer: P,
    r: Result<(GssContext, Option<Vec<u8>>), Error>,
)
    requires
        forall|x: Vec<u8>, k: &[u32], v: Result<VerifiedReq, VerifyError>|
            Some(x@) == ap_req_inner(token) && k@.contains(kvno) && #[trigger] call_ensures(
                verify,
                (&x, keys, Some(k), Some(server), realm),
                v,
            ) ==> call_ensures(verify, (&x, keys, None::<&[u32]>, Some(server), realm), v),
        kvnos@.contains(kvno),
        accept_result(
            token,
            keys,
            Some(kvnos),
            bindings,
            Some(server),
            realm,
            verify,
            open,
            answer,
            r,
        ),
    ensures
        accept_result(
            token,
            keys,
            None,
            bindings,
            Some(server),
            realm,
            verify,
            open,
            answer,
            r,
        ),
{
    if keys@.len() != 0 && ap_req_inner(token) is Some {
        let ap_req = ap_req_inner(token)->0;
        let v = choose|v: Result<VerifiedReq, VerifyError>|
            {
                &&& #[trigger] verified(
                    verify,
                    ap_req,
                    keys,
                    Some(kvnos),
                    Some(server),
                    realm,
                    v,
                )
                &&& match v {
                    Err(e) => r matches Err(x) && is_verify_failure(e, x),
                    Ok(q) => verified_result(q, bindings, open, answer, bare_token(token), r),
                }
            };
        assert(verified(verify, ap_req, keys, None, Some(server), realm, v));
    }
}

/// An acceptor without a key accepts nothing, and neither does one whose initial
/// token holds no AP-REQ.
pub proof fn law_nothing_to_accept_is_refused<
    V: Fn(
        &Vec<u8>,
        &[EncryptionKey],
        Option<&[u32]>,
        Option<&PrincipalName>,
        Option<&str>,
    ) -> Result<VerifiedReq, VerifyError>,
    O: Fn(&EncryptionKey, &Vec<u8>) -> Option<DelegatedFacts>,
    P: Fn(&EncryptionKey, u32, u32) -> Result<Vec<u8>, Error>,
>(
    token: Seq<u8>,
    keys: &[EncryptionKey],
    kvnos: Option<&[u32]>,
    bindings: Option<&ChannelBindings>,
    server: Option<&PrincipalName>,
    realm: Option<&str>,
    verify: V,
    open: O,
    answer: P,
    r: Result<(GssContext, Option<Vec<u8>>), Error>,
)
    requires
        accept_result(token, keys, kvnos, bindings, server, realm, verify, open, answer, r),
        keys@.len() == 0 || ap_req_inner(token) is None,
    ensures
        r == Err::<(GssContext, Option<Vec<u8>>), Error>(Error::Truncated),
{
}

/// A request that `verify` never takes is never accepted.
pub proof fn law_unverified_request_is_refused<
    V: Fn(
        &Vec<u8>,
        &[EncryptionKey],
        Option<&[u32]>,
        Option<&PrincipalName>,
        Option<&str>,
    ) -> Result<VerifiedReq, VerifyError>,
    O: Fn(&EncryptionKey, &Vec<u8>) -> Option<DelegatedFacts>,
    P: Fn(&EncryptionKey, u32, u32) -> Result<Vec<u8>, Error>,
>(
    token: Seq<u8>,
    keys: &[EncryptionKey],
    kvnos: Option<&[u32]>,
    bindings: Option<&ChannelBindings>,
    server: Option<&PrincipalName>,
    realm: Option<&str>,
    verify: V,
    open: O,
    answer: P,
    r: Result<(GssContext, Option<Vec<u8>>), Error>,
)
    requires
        accept_result(token, keys, kvnos, bindings, server, realm, verify, open, answer, r),
        forall|x: Vec<u8>, v: Result<VerifiedReq, VerifyError>| #[trigger]
            call_ensures(verify, (&x, keys, kvnos, server, realm), v) ==> v is Err,
    ensures
        r is Err,
{
}

/// An accepted request is answered with an AP-REP where the context has mutual
/// authentication, and only then; in three-leg style it always has.
pub proof fn law_mutual_requests_are_answered<
    P: Fn(&EncryptionKey, u32, u32) -> Result<Vec<u8>, Error>,
>(
    answer: P,
    q: VerifiedReq,
    dce_style: bool,
    judged: Result<(u32, Option<String>), Error>,
    r: Result<(GssContext, Option<Vec<u8>>), Error>,
)
    requires
        judged_result(answer, q, dce_style, judged, r),
    ensures
        judged matches Err(e) ==> r == Err::<(GssContext, Option<Vec<u8>>), Error>(e),
        r matches Ok(t) ==> (t.1 is Some <==> t.0.gss_flags & GSS_C_MUTUAL != 0),
        r matches Ok(t) ==> dce_style ==> t.1 is Some,
        r matches Ok(t) ==> t.0.client == Some(q.facts.client) && t.0.lifetime_end
            == q.facts.endtime && !t.0.initiator,
{
    if let Ok(j) = judged {
        law_accepted_context_flags(j.0, dce_style);
    }
}

/// A failure of the crypto layer that speaks of integrity is one of integrity;
/// any other failure is handed on with its text.
pub proof fn law_integrity_failures_are_told(e: VerifyError, r: Error)
    requires
        is_verify_failure(e, r),
    ensures
        r == Error::Integrity <==> match e {
            VerifyError::Crypto { said, .. } => exists|i: int| text_at(said@, "integrity"@, i),
            VerifyError::Other(_) => false,
        },
        e matches VerifyError::Other(shown) ==> r == Error::Inner(shown),
{
}

/// Delegated credentials are looked at in a checksum of the right kind that is
/// long enough for them and has its flag set; in no other.
pub proof fn law_only_marked_checksums_delegate<
    O: Fn(&EncryptionKey, &Vec<u8>) -> Option<DelegatedFacts>,
>(q: VerifiedReq, open: O, d: Result<Option<String>, Error>)
    requires
        carried(q, open, d),
        match q.cksum {
            None => true,
            Some(c) => c.cksumtype != 0x8003 || c.checksum@.len() < 28 || checksum_flags(
                c.checksum@,
            ) & 1 == 0,
        },
    ensures
        d == Ok::<Option<String>, Error>(None),
{
}

/// An initiator's context is around the subkey that was drawn, for the client, and
/// has the flags that it asked for; its token is a framed AP-REQ.
pub proof fn law_initiated_context<
    N: Fn(&PrincipalName, &String) -> String,
    B: Fn(
        &Ticket,
        &EncryptionKey,
        &String,
        &PrincipalName,
        &InitRequest,
    ) -> Result<Vec<u8>, Error>,
>(
    sub: EncryptionKey,
    ticket: Ticket,
    session: EncryptionKey,
    crealm: String,
    cname: PrincipalName,
    mutual: bool,
    bindings: Option<&ChannelBindings>,
    deleg: Option<Seq<u8>>,
    unparse: N,
    build: B,
    r: Result<(GssContext, Vec<u8>), Error>,
)
    requires
        init_result(
            sub,
            ticket,
            session,
            crealm,
            cname,
            mutual,
            bindings,
            deleg,
            unparse,
            build,
            r,
        ),
    ensures
        r matches Ok(t) ==> t.0.initiator && t.0.session == sub && t.0.send_seq == 0
            && t.0.recv_seq == 0 && !t.0.recv_seen && t.0.recv_window@.len() == 0
            && t.0.acceptor_subkey is None && t.0.gss_flags == asked_flags(mutual, deleg is Some),
        r matches Ok(t) ==> exists|der: Seq<u8>| #[trigger] wrapped_app(TOK_AP_REQ@, der) == t.1@,
{
}

/// A request asks for mutual authentication where the flags in its checksum do,
/// and its checksum holds the bindings, the flags and what is delegated.
pub proof fn law_request_says_what_is_asked(
    q: InitRequest,
    sub: EncryptionKey,
    mutual: bool,
    bindings: Option<&ChannelBindings>,
    deleg: Option<Seq<u8>>,
)
    requires
        is_request(q, sub, mutual, bindings, deleg),
    ensures
        q.mutual == mutual,
        q.cksum.cksumtype == 0x8003,
        q.cksum.checksum@ == initial_checksum(
            bindings,
            asked_flags(mutual, deleg is Some),
            deleg,
        ),
        key_octets(q.subkey) == key_octets(sub),
{
}

/// Credentials are made just where there are any to hand on.
pub proof fn law_credentials_are_made_on_request<
    E: Fn(&EncryptionKey, u32, &CredPart) -> Result<Vec<u8>, Error>,
    W: Fn(&CredMessage) -> Result<Vec<u8>, Error>,
>(
    session: EncryptionKey,
    deleg: Option<DelegCred>,
    now: (u32, u32),
    seal: E,
    encode: W,
    c: Result<Option<Vec<u8>>, Error>,
)
    requires
        creds_made(session, deleg, now, seal, encode, c),
    ensures
        deleg is None ==> c == Ok::<Option<Vec<u8>>, Error>(None),
        c matches Ok(o) ==> (o is Some <==> deleg is Some),
{
}

} // verus!
