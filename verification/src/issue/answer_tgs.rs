//! Answering a TGS request from beginning to end, once its header was opened:
//! what is opened and made under a key comes in as functions.

use crate::ad::s4u::UserReader;
use crate::ad::{pac_privsvr_key, privsvr_result, LogonSids};
use crate::error::{proto, refusal, Error, Status, GENERIC, S_PRINCIPAL_UNKNOWN};
use crate::issue::as_req::is_current_key;
use crate::issue::header::HeaderTgt;
use crate::issue::reply::{is_tgs_plan, tgs_issue_ticket, FastFacts, TgsPlan};
use crate::issue::sprinc::HostFacts;
use crate::issue::tgs_policy::{S4u2Self, SecondTicket};
use crate::issue::tgs_req::{
    bool_slice, check_tgs_req, gather_result, gather_tgs_req_info, tgs_client, tgs_client_lookup,
    tgs_flags_times_policy, tgs_req_result, tgs_times_result, ticket_key, ticket_key_is_there,
    ticket_key_octets, TgsChecked, TgsFacts, TgsOutside, TgsRequest, TgsSubject, TicketTimes,
};
use crate::kdb::PrincipalRead;
use crate::msg::{key_octets, EncTicketPart, EncryptionKey, KdcReqBody, PaData, TransitedEncoding};
use crate::name::{krbtgt_view, spec_lookup_principal_id, PrincipalName};
use crate::pac::PacFacts;
use crate::store::{lemma_finds_enctype_unique, Policy, Principal};
use vstd::prelude::*;

verus! {

/// The opened header of a TGS request.
pub struct TgsHeader<'a> {
    /// Server of the presented ticket.
    pub sname: &'a PrincipalName,
    /// Realm of that server.
    pub realm: &'a str,
    /// What was in the ticket and in the authenticator.
    pub opened: &'a HeaderTgt<'a>,
    /// The authenticator as it came, encrypted.
    pub sealed: &'a Vec<u8>,
}

/// What the modules say once a request is checked.
#[derive(Debug, PartialEq, Eq)]
pub struct TgsOutcome {
    /// The policy module's verdict.
    pub verdict: Result<(), Error>,
    /// What came of the authorization data.
    pub authdata: Result<(), Error>,
}

/// A TGS request that is answered with a ticket.
pub struct TgsIssue<'a> {
    /// The server that was asked for.
    pub requested: &'a PrincipalName,
    /// The entry that answers.
    pub server: &'a Principal,
    /// For whom the ticket is.
    pub subject: TgsSubject,
    /// Indicators, keys and realms on the way.
    pub checked: TgsChecked,
    /// Key that the ticket is under.
    pub service_key: EncryptionKey,
    /// Key of the PAC's KDC signatures.
    pub kdc_key: EncryptionKey,
    /// The local ticket-granting service.
    pub krbtgt: &'a Principal,
    /// Its key.
    pub krbtgt_key: usize,
    /// Session key.
    pub session: EncryptionKey,
    /// Times and flags.
    pub times: TicketTimes,
    /// The ticket and the reply.
    pub plan: TgsPlan<'a>,
}

/// What a lookup of the local ticket-granting service brings.
pub open spec fn local_lookup<S: PrincipalRead>(store: &S) -> Result<Option<Principal>, Error> {
    store.lookup(spec_lookup_principal_id(krbtgt_view(store.realm_view()), store.realm_view()))
}

/// What opening the parts of a TGS request brought, but for the user that it is on
/// behalf of.
pub struct TgsPresented {
    /// The second ticket, where there is one.
    pub stkt: Result<Option<SecondTicket>, Error>,
    /// The presented ticket's PAC, where it has one.
    pub header_pac: Option<Result<PacFacts, Error>>,
    /// The logon information of that PAC, where just one buffer holds it.
    pub logon: Option<Vec<u8>>,
    /// The presented ticket's client, name with realm.
    pub header_client: String,
    /// The second ticket's client, name with realm.
    pub evidence_client: String,
    /// The requested server as a name.
    pub target: Option<String>,
}

impl TgsPresented {
    /// This, with the user that the request is on behalf of.
    pub open spec fn spec_with_user(self, s4u: Result<Option<S4u2Self>, Error>) -> TgsOutside {
        TgsOutside {
            s4u,
            stkt: self.stkt,
            header_pac: self.header_pac,
            logon: self.logon,
            header_client: self.header_client,
            evidence_client: self.evidence_client,
            target: self.target,
        }
    }

    /// This, with the user that the request is on behalf of.
    pub fn with_user(self, s4u: Result<Option<S4u2Self>, Error>) -> (r: TgsOutside)
        ensures
            r == self.spec_with_user(s4u),
    {
        TgsOutside {
            s4u,
            stkt: self.stkt,
            header_pac: self.header_pac,
            logon: self.logon,
            header_client: self.header_client,
            evidence_client: self.evidence_client,
            target: self.target,
        }
    }
}

/// The padata that are answered: those of the FAST layer, where there is one.
pub open spec fn asked_padata(fast: Option<&FastFacts>, outer: Seq<PaData>) -> Seq<PaData> {
    match fast {
        Some(f) => f.padata@,
        None => outer,
    }
}

/// What opening brought; a failed lookup of the local ticket-granting service
/// stands in the place of the second ticket, which needs it.
pub open spec fn with_local<S: PrincipalRead>(store: &S, out: TgsOutside) -> TgsOutside {
    match local_lookup(store) {
        Err(e) => TgsOutside { stkt: Err(e), ..out },
        Ok(_) => out,
    }
}

/// The local ticket-granting service, where it was found.
pub open spec fn local_entry<S: PrincipalRead>(store: &S) -> Option<Principal> {
    match local_lookup(store) {
        Ok(Some(p)) => Some(p),
        _ => None,
    }
}

/// `local` is the local ticket-granting service, where it was found.
pub open spec fn is_local<S: PrincipalRead>(store: &S, local: Option<&Principal>) -> bool {
    match local {
        Some(p) => local_entry(store) == Some(*p),
        None => local_entry(store) is None,
    }
}

/// The key that the PAC's KDC signatures come from: that of the ticket where the
/// server is the ticket-granting service of another realm, else that of the local
/// one.
pub open spec fn tgs_kdc_source(
    policy: Policy,
    realm: Seq<char>,
    server: Principal,
    ticket_key: (i32, Seq<u8>),
    local: Principal,
    k: (i32, Seq<u8>),
) -> bool {
    if server.name@.is_krbtgt() && !server.name@.is_krbtgt_for(realm) {
        k == ticket_key
    } else {
        is_current_key(policy, local, k)
    }
}

/// `kdc` is what making the key of the PAC's KDC signatures comes to.
pub open spec fn tgs_kdc_key<
    T: Fn(&String) -> Option<i32>,
    V: Fn(&EncryptionKey, &str, i32) -> Option<EncryptionKey>,
>(
    policy: Policy,
    realm: Seq<char>,
    server: Principal,
    ticket_key: (i32, Seq<u8>),
    local: Principal,
    named: T,
    derive: V,
    kdc: Result<EncryptionKey, Error>,
) -> bool {
    exists|from: EncryptionKey|
        tgs_kdc_source(policy, realm, server, ticket_key, local, key_octets(from))
            && #[trigger] privsvr_result(server, from, named, derive, kdc)
}

/// What a checked TGS request comes to whose session key and times are there: the
/// local ticket-granting service is needed, then the key of the PAC's KDC signatures,
/// then the authorization data.
pub open spec fn tgs_keyed_result<
    S: PrincipalRead,
    T: Fn(&String) -> Option<i32>,
    V: Fn(&EncryptionKey, &str, i32) -> Option<EncryptionKey>,
>(
    store: &S,
    req: TgsRequest,
    header_pac: bool,
    subkey: bool,
    padata: Seq<PaData>,
    fast: Option<&FastFacts>,
    named: T,
    derive: V,
    s: TgsSubject,
    k: TgsChecked,
    session: EncryptionKey,
    local: Option<&Principal>,
    times: TicketTimes,
    authdata: Result<(), Error>,
    r: Result<TgsIssue, Error>,
) -> bool {
    let ticket_key = ticket_key_octets(*req.server, s.stkt, k.keys);
    if local is None || store.policy_view().finds_enctype(*local->0, None, 0, None) {
        r matches Err(x) && x == refusal(GENERIC, Status::GetLocalTgt)
    } else {
        exists|kdc: Result<EncryptionKey, Error>|
            {
                &&& #[trigger] tgs_kdc_key(
                    store.policy_view(),
                    store.realm_view(),
                    *req.server,
                    ticket_key,
                    *local->0,
                    named,
                    derive,
                    kdc,
                )
                &&& match (kdc, authdata) {
                    (Err(e), _) => r matches Err(x) && x == e,
                    (Ok(_), Err(e)) => r matches Err(x) && x == e,
                    (Ok(key), Ok(())) => r matches Ok(i) && {
                        &&& i.requested == req.sname
                        &&& i.server == req.server
                        &&& i.subject == s
                        &&& i.checked == k
                        &&& key_octets(i.service_key) == ticket_key
                        &&& i.kdc_key == key
                        &&& *i.krbtgt == *local->0
                        &&& store.policy_view().finds_enctype(
                            *i.krbtgt,
                            None,
                            0,
                            Some(i.krbtgt_key),
                        )
                        &&& i.session == session
                        &&& i.times == times
                        &&& is_tgs_plan(
                            i.plan,
                            store.policy_view(),
                            store.realm_view(),
                            req,
                            s,
                            times.flags,
                            subject_has_pac(s, header_pac),
                            subkey,
                            padata,
                            fast,
                        )
                    },
                }
            }
    }
}

/// What a checked TGS request comes to whose session key was made.
pub open spec fn tgs_last_result<
    S: PrincipalRead,
    D: Fn(&TgsSubject, &TgsChecked) -> TgsOutcome,
    T: Fn(&String) -> Option<i32>,
    V: Fn(&EncryptionKey, &str, i32) -> Option<EncryptionKey>,
>(
    store: &S,
    req: TgsRequest,
    header_pac: bool,
    subkey: bool,
    padata: Seq<PaData>,
    fast: Option<&FastFacts>,
    now: u32,
    decide: D,
    named: T,
    derive: V,
    s: TgsSubject,
    k: TgsChecked,
    session: EncryptionKey,
    client: Option<&Principal>,
    local: Option<&Principal>,
    r: Result<TgsIssue, Error>,
) -> bool {
    exists|d: TgsOutcome, t: Result<TicketTimes, Error>|
        {
            &&& #[trigger] call_ensures(decide, (&s, &k), d)
            &&& #[trigger] tgs_times_result(
                store.policy_view(),
                *req.body,
                *req.enc_tkt,
                client,
                *req.server,
                s.authtime,
                k.set_transited_flag,
                final_on_behalf(s),
                d.verdict,
                now,
                t,
            )
            &&& match t {
                Err(e) => r matches Err(x) && x == e,
                Ok(times) => tgs_keyed_result(
                    store,
                    req,
                    header_pac,
                    subkey,
                    padata,
                    fast,
                    named,
                    derive,
                    s,
                    k,
                    session,
                    local,
                    times,
                    d.authdata,
                    r,
                ),
            }
        }
}

/// The subject's ticket has a PAC: the second ticket in a delegation, else the
/// presented one, of which `header_pac` says whether it has.
pub open spec fn subject_has_pac(s: TgsSubject, header_pac: bool) -> bool {
    if s.s4u2proxy {
        s.stkt matches Some(st) && st.pac is Some
    } else {
        header_pac
    }
}

/// Whether the subject's ticket has a PAC.
fn has_subject_pac(s: &TgsSubject, header_pac: bool) -> (r: bool)
    ensures
        r == subject_has_pac(*s, header_pac),
{
    if s.s4u2proxy {
        match &s.stkt {
            Some(st) => st.pac.is_some(),
            None => false,
        }
    } else {
        header_pac
    }
}

/// The ticket is the final one of a request on behalf of a user.
pub open spec fn final_on_behalf(s: TgsSubject) -> bool {
    s.s4u2self && !s.is_referral
}

/// `client` is the entry that a lookup brought.
pub open spec fn is_entry(client: Option<&Principal>, p: Option<Principal>) -> bool {
    match client {
        Some(c) => p == Some(*c),
        None => p is None,
    }
}

/// What a checked TGS request comes to: its session key is made, its client is
/// found, and times, flags and the answer are laid out.
pub open spec fn tgs_checked_result<
    S: PrincipalRead,
    K: Fn(i32) -> Result<EncryptionKey, Error>,
    D: Fn(&TgsSubject, &TgsChecked) -> TgsOutcome,
    T: Fn(&String) -> Option<i32>,
    V: Fn(&EncryptionKey, &str, i32) -> Option<EncryptionKey>,
>(
    store: &S,
    req: TgsRequest,
    header_pac: bool,
    subkey: bool,
    padata: Seq<PaData>,
    fast: Option<&FastFacts>,
    now: u32,
    fresh: K,
    decide: D,
    named: T,
    derive: V,
    s: TgsSubject,
    k: TgsChecked,
    local: Option<&Principal>,
    r: Result<TgsIssue, Error>,
) -> bool {
    exists|key: Result<EncryptionKey, Error>| #[trigger]
        call_ensures(fresh, (k.keys.session_etype,), key) && (match key {
            Err(e) => r matches Err(x) && x == e,
            Ok(session) => match tgs_client_lookup(store, s, *req.enc_tkt, *req.server) {
                Err(e) => r matches Err(x) && x == e,
                Ok(p) => exists|client: Option<&Principal>| #[trigger]
                    is_entry(client, p) && tgs_last_result(
                        store,
                        req,
                        header_pac,
                        subkey,
                        padata,
                        fast,
                        now,
                        decide,
                        named,
                        derive,
                        s,
                        k,
                        session,
                        client,
                        local,
                        r,
                    ),
            },
        })
}

/// What a TGS request comes to whose server was found.
pub open spec fn tgs_found_result<
    'a,
    S: PrincipalRead,
    O: UserReader,
    M: Fn(&TgsRequest, Option<&Principal>) -> (TgsPresented, TgsFacts<'a>),
    R: Fn(&Vec<u8>) -> Result<LogonSids, String>,
    N: Fn(&Vec<u8>, &LogonSids) -> Vec<u8>,
    A: Fn(&TransitedEncoding, &str, &str, &str) -> Result<TransitedEncoding, ()>,
    W: Fn(&TransitedEncoding, &str, &str) -> bool,
    G: Fn(&EncTicketPart, &Principal, &EncryptionKey) -> Result<Vec<String>, Error>,
    K: Fn(i32) -> Result<EncryptionKey, Error>,
    D: Fn(&TgsSubject, &TgsChecked) -> TgsOutcome,
    T: Fn(&String) -> Option<i32>,
    V: Fn(&EncryptionKey, &str, i32) -> Option<EncryptionKey>,
>(
    store: &S,
    req: TgsRequest,
    h: HeaderTgt,
    padata: Seq<PaData>,
    fast: Option<&FastFacts>,
    now: u32,
    users: &O,
    present: M,
    read: R,
    write: N,
    append: A,
    allow: W,
    get: G,
    fresh: K,
    decide: D,
    named: T,
    derive: V,
    r: Result<TgsIssue, Error>,
) -> bool {
    exists|
        m: (TgsPresented, TgsFacts<'a>),
        s4u: Result<Option<S4u2Self>, Error>,
        local: Option<&Principal>,
        c: Result<(TgsSubject, TgsChecked), Error>,
    |
        {
            &&& #[trigger] call_ensures(present, (&req, local), m)
            &&& is_local(store, local)
            &&& #[trigger] users.reads(
                store.realm_view(),
                h.enc_tkt.key,
                h.authenticator.subkey,
                asked_padata(fast, padata),
                req.body.nonce,
                s4u,
            )
            &&& #[trigger] tgs_req_result(
                store,
                req,
                with_local(store, m.0.spec_with_user(s4u)),
                m.1,
                local,
                now,
                read,
                write,
                append,
                allow,
                get,
                c,
            )
            &&& match c {
                Err(e) => r matches Err(x) && x == e,
                Ok(t) => tgs_checked_result(
                    store,
                    req,
                    m.0.header_pac is Some,
                    h.authenticator.subkey is Some,
                    padata,
                    fast,
                    now,
                    fresh,
                    decide,
                    named,
                    derive,
                    t.0,
                    t.1,
                    local,
                    r,
                ),
            }
        }
}

/// The request with the entry that answers it.
pub open spec fn request_for<'a>(
    body: &'a KdcReqBody,
    header: TgsHeader<'a>,
    sname: &'a PrincipalName,
    req_realm: &'a str,
    server: &'a Principal,
) -> TgsRequest<'a> {
    TgsRequest {
        body,
        header_sname: header.sname,
        header_realm: header.realm,
        enc_tkt: &header.opened.enc_tkt,
        sname,
        req_realm,
        server,
    }
}

/// The options of a FAST layer.
pub open spec fn options_of(fast: Option<&FastFacts>) -> Option<Seq<bool>> {
    match fast {
        Some(f) => Some(f.options@),
        None => None,
    }
}

/// What a TGS request comes to: its server is found, it is checked, and the
/// ticket is laid out.
pub open spec fn tgs_body_result<
    'a,
    S: PrincipalRead,
    Q: Fn(&String, &String, u32, u32, &Vec<u8>) -> bool,
    P: Fn(&EncTicketPart, &EncryptionKey, &Principal, Option<&Principal>) -> Result<(), Error>,
    O: UserReader,
    M: Fn(&TgsRequest, Option<&Principal>) -> (TgsPresented, TgsFacts<'a>),
    R: Fn(&Vec<u8>) -> Result<LogonSids, String>,
    N: Fn(&Vec<u8>, &LogonSids) -> Vec<u8>,
    A: Fn(&TransitedEncoding, &str, &str, &str) -> Result<TransitedEncoding, ()>,
    W: Fn(&TransitedEncoding, &str, &str) -> bool,
    G: Fn(&EncTicketPart, &Principal, &EncryptionKey) -> Result<Vec<String>, Error>,
    K: Fn(i32) -> Result<EncryptionKey, Error>,
    D: Fn(&TgsSubject, &TgsChecked) -> TgsOutcome,
    T: Fn(&String) -> Option<i32>,
    V: Fn(&EncryptionKey, &str, i32) -> Option<EncryptionKey>,
>(
    store: &S,
    body: KdcReqBody,
    header: TgsHeader,
    unsupported_options: bool,
    host: HostFacts,
    hops: Seq<String>,
    padata: Seq<PaData>,
    fast: Option<&FastFacts>,
    now: u32,
    seen: Q,
    verify: P,
    users: &O,
    present: M,
    read: R,
    write: N,
    append: A,
    allow: W,
    get: G,
    fresh: K,
    decide: D,
    named: T,
    derive: V,
    r: Result<TgsIssue, Error>,
) -> bool {
    exists|g: Result<&Principal, Error>|
        {
            &&& #[trigger] gather_result(
                store,
                options_of(fast),
                body,
                unsupported_options,
                *header.opened,
                *header.sealed,
                host,
                hops,
                seen,
                verify,
                g,
            )
            &&& match g {
                Err(e) => r matches Err(x) && x == e,
                Ok(server) => exists|realm: &str|
                    {
                        &&& realm@ == body.realm@
                        &&& #[trigger] tgs_found_result(
                            store,
                            request_for(&body, header, &body.sname->0, realm, server),
                            *header.opened,
                            padata,
                            fast,
                            now,
                            users,
                            present,
                            read,
                            write,
                            append,
                            allow,
                            get,
                            fresh,
                            decide,
                            named,
                            derive,
                            r,
                        )
                    },
            }
        }
}

/// Lays out the answer to a checked request whose session key and times are there.
fn conclude_keys<
    'a,
    S: PrincipalRead,
    T: Fn(&String) -> Option<i32>,
    V: Fn(&EncryptionKey, &str, i32) -> Option<EncryptionKey>,
>(
    store: &S,
    req: &TgsRequest<'a>,
    header_pac: bool,
    subkey: bool,
    padata: &[PaData],
    fast: Option<&FastFacts>,
    named: &T,
    derive: &V,
    s: TgsSubject,
    k: TgsChecked,
    session: EncryptionKey,
    local: Option<&'a Principal>,
    times: TicketTimes,
    authdata: Result<(), Error>,
) -> (r: Result<TgsIssue<'a>, Error>)
    requires
        ticket_key_is_there(*req.server, s.stkt, k.keys),
        forall|x: String| #[trigger] call_requires(*named, (&x,)),
        forall|k: EncryptionKey, l: &str, t: i32| #[trigger] call_requires(*derive, (&k, l, t)),
    ensures
        tgs_keyed_result(
            store,
            *req,
            header_pac,
            subkey,
            padata@,
            fast,
            *named,
            *derive,
            s,
            k,
            session,
            local,
            times,
            authdata,
            r,
        ),
{
    let krbtgt: &'a Principal = match local {
        None => {
            return Err(proto(GENERIC, Status::GetLocalTgt));
        },
        Some(p) => p,
    };
    let policy = store.policy();
    let krbtgt_key: usize = match policy.first_current_key(krbtgt) {
        None => {
            return Err(proto(GENERIC, Status::GetLocalTgt));
        },
        Some(i) => i,
    };
    proof {
        if policy.finds_enctype(*krbtgt, None, 0, None) {
            lemma_finds_enctype_unique(*policy, *krbtgt, None, 0, Some(krbtgt_key), None);
        }
    }
    let service_key: EncryptionKey = match ticket_key(req.server, &s.stkt, k.keys) {
        Some(x) => x,
        None => {
            return Err(proto(GENERIC, Status::FindingServerKey));
        },
    };
    let foreign: bool = req.server.name.is_krbtgt() && !req.server.name.is_krbtgt_for(
        store.realm(),
    );
    let from: EncryptionKey = if foreign {
        service_key.copy()
    } else {
        krbtgt.keys[krbtgt_key].to_key()
    };
    let kdc = pac_privsvr_key(req.server, &from, named, derive);
    proof {
        assert(tgs_kdc_source(
            store.policy_view(),
            store.realm_view(),
            *req.server,
            ticket_key_octets(*req.server, s.stkt, k.keys),
            *krbtgt,
            key_octets(from),
        ));
        assert(tgs_kdc_key(
            store.policy_view(),
            store.realm_view(),
            *req.server,
            ticket_key_octets(*req.server, s.stkt, k.keys),
            *krbtgt,
            *named,
            *derive,
            kdc,
        ));
    }
    let kdc_key: EncryptionKey = match (kdc, authdata) {
        (Err(e), _) => {
            return Err(e);
        },
        (Ok(_), Err(e)) => {
            return Err(e);
        },
        (Ok(x), Ok(())) => x,
    };
    let with_pac: bool = has_subject_pac(&s, header_pac);
    let plan = tgs_issue_ticket(
        policy,
        store.realm(),
        req,
        &s,
        times.flags,
        with_pac,
        subkey,
        padata,
        fast,
    );
    Ok(
        TgsIssue {
            requested: req.sname,
            server: req.server,
            subject: s,
            checked: k,
            service_key,
            kdc_key,
            krbtgt,
            krbtgt_key,
            session,
            times,
            plan,
        },
    )
}

/// Lays out the answer to a checked request.
fn conclude<
    'a,
    S: PrincipalRead,
    K: Fn(i32) -> Result<EncryptionKey, Error>,
    D: Fn(&TgsSubject, &TgsChecked) -> TgsOutcome,
    T: Fn(&String) -> Option<i32>,
    V: Fn(&EncryptionKey, &str, i32) -> Option<EncryptionKey>,
>(
    store: &S,
    req: &TgsRequest<'a>,
    header_pac: bool,
    subkey: bool,
    padata: &[PaData],
    fast: Option<&FastFacts>,
    now: u32,
    fresh: &K,
    decide: &D,
    named: &T,
    derive: &V,
    s: TgsSubject,
    k: TgsChecked,
    local: Option<&'a Principal>,
) -> (r: Result<TgsIssue<'a>, Error>)
    requires
        ticket_key_is_there(*req.server, s.stkt, k.keys),
        forall|e: i32| #[trigger] call_requires(*fresh, (e,)),
        forall|s: TgsSubject, k: TgsChecked| #[trigger] call_requires(*decide, (&s, &k)),
        forall|x: String| #[trigger] call_requires(*named, (&x,)),
        forall|k: EncryptionKey, l: &str, t: i32| #[trigger] call_requires(*derive, (&k, l, t)),
    ensures
        tgs_checked_result(
            store,
            *req,
            header_pac,
            subkey,
            padata@,
            fast,
            now,
            *fresh,
            *decide,
            *named,
            *derive,
            s,
            k,
            local,
            r,
        ),
{
    let key = fresh(k.keys.session_etype);
    let session = match key {
        Err(e) => {
            return Err(e);
        },
        Ok(x) => x,
    };
    let looked = tgs_client(store, &s, req.enc_tkt, req.server);
    let client: Option<&Principal> = match looked {
        Err(e) => {
            return Err(e);
        },
        Ok(c) => c,
    };
    let d = decide(&s, &k);
    let ghost said = d;
    let on_behalf: bool = s.s4u2self && !s.is_referral;
    let t = tgs_flags_times_policy(
        store.policy(),
        req.body,
        req.enc_tkt,
        client,
        req.server,
        s.authtime,
        k.set_transited_flag,
        on_behalf,
        d.verdict,
        now,
    );
    proof {
        assert(is_entry(client, tgs_client_lookup(store, s, *req.enc_tkt, *req.server)->Ok_0));
        assert(call_ensures(*decide, (&s, &k), said));
        assert(tgs_times_result(
            store.policy_view(),
            *req.body,
            *req.enc_tkt,
            client,
            *req.server,
            s.authtime,
            k.set_transited_flag,
            final_on_behalf(s),
            said.verdict,
            now,
            t,
        ));
    }
    let ghost who = client;
    let ghost subject = s;
    let ghost checked = k;
    let TgsOutcome { verdict: _, authdata } = d;
    let r: Result<TgsIssue<'a>, Error> = match t {
        Err(e) => Err(e),
        Ok(times) => conclude_keys(
            store,
            req,
            header_pac,
            subkey,
            padata,
            fast,
            named,
            derive,
            s,
            k,
            session,
            local,
            times,
            authdata,
        ),
    };
    proof {
        assert(tgs_last_result(
            store,
            *req,
            header_pac,
            subkey,
            padata@,
            fast,
            now,
            *decide,
            *named,
            *derive,
            subject,
            checked,
            key->Ok_0,
            who,
            local,
            r,
        ));
    }
    r
}

/// Judges a TGS request whose header was opened and lays out its answer. `seen` keeps
/// an authenticator, and says whether it was kept before; `verify` says how the PAC of
/// a ticket fares; `users` finds out whom the request is on behalf of; `present` opens
/// and checks the other parts of the request, whose server was found, with the local
/// ticket-granting service; `read` and `write` read logon information and write it with
/// other identifiers, `append` adds a realm to a transited field, `allow` says whether
/// the realms in one are allowed, `get` gets the authentication indicators of a ticket,
/// `fresh` makes a session key of a type, `decide` asks the modules, `named` reads the
/// name of a key type, and `derive` derives a key of another type.
pub fn issue_tgs_body<
    'a,
    'b,
    S: PrincipalRead,
    Q: Fn(&String, &String, u32, u32, &Vec<u8>) -> bool,
    P: Fn(&EncTicketPart, &EncryptionKey, &Principal, Option<&Principal>) -> Result<(), Error>,
    O: UserReader,
    M: Fn(&TgsRequest, Option<&Principal>) -> (TgsPresented, TgsFacts<'b>),
    R: Fn(&Vec<u8>) -> Result<LogonSids, String>,
    N: Fn(&Vec<u8>, &LogonSids) -> Vec<u8>,
    A: Fn(&TransitedEncoding, &str, &str, &str) -> Result<TransitedEncoding, ()>,
    W: Fn(&TransitedEncoding, &str, &str) -> bool,
    G: Fn(&EncTicketPart, &Principal, &EncryptionKey) -> Result<Vec<String>, Error>,
    K: Fn(i32) -> Result<EncryptionKey, Error>,
    D: Fn(&TgsSubject, &TgsChecked) -> TgsOutcome,
    T: Fn(&String) -> Option<i32>,
    V: Fn(&EncryptionKey, &str, i32) -> Option<EncryptionKey>,
>(
    store: &'a S,
    body: &'a KdcReqBody,
    header: TgsHeader<'a>,
    unsupported_options: bool,
    host: &HostFacts,
    hops: &[String],
    padata: &[PaData],
    fast: Option<&FastFacts>,
    now: u32,
    seen: Q,
    verify: P,
    users: &O,
    present: M,
    read: R,
    write: N,
    append: A,
    allow: W,
    get: G,
    fresh: K,
    decide: D,
    named: T,
    derive: V,
) -> (r: Result<TgsIssue<'a>, Error>)
    requires
        header.opened.tgt_key < header.opened.header_server.keys@.len(),
        forall|c: String, s: String, t: u32, u: u32, b: Vec<u8>| #[trigger]
            call_requires(seen, (&c, &s, t, u, &b)),
        forall|x: EncTicketPart, k: EncryptionKey, p: Principal, l: Option<&Principal>| #[trigger]
            call_requires(verify, (&x, &k, &p, l)),
        users.ready(),
        forall|q: TgsRequest, l: Option<&Principal>| #[trigger] call_requires(present, (&q, l)),
        forall|x: Vec<u8>| #[trigger] call_requires(read, (&x,)),
        forall|x: Vec<u8>, l: LogonSids| #[trigger] call_requires(write, (&x, &l)),
        forall|t: TransitedEncoding, a: &str, b: &str, c: &str| #[trigger]
            call_requires(append, (&t, a, b, c)),
        forall|t: TransitedEncoding, a: &str, b: &str| #[trigger]
            call_requires(allow, (&t, a, b)),
        forall|x: EncTicketPart, p: Principal, k: EncryptionKey| #[trigger]
            call_requires(get, (&x, &p, &k)),
        forall|e: i32| #[trigger] call_requires(fresh, (e,)),
        forall|s: TgsSubject, k: TgsChecked| #[trigger] call_requires(decide, (&s, &k)),
        forall|x: String| #[trigger] call_requires(named, (&x,)),
        forall|k: EncryptionKey, l: &str, t: i32| #[trigger] call_requires(derive, (&k, l, t)),
    ensures
        tgs_body_result(
            store,
            *body,
            header,
            unsupported_options,
            *host,
            hops@,
            padata@,
            fast,
            now,
            seen,
            verify,
            users,
            present,
            read,
            write,
            append,
            allow,
            get,
            fresh,
            decide,
            named,
            derive,
            r,
        ),
{
    let options: Option<&[bool]> = match fast {
        Some(f) => Some(f.options),
        None => None,
    };
    let ghost whole = header;
    let TgsHeader { sname: header_sname, realm: header_realm, opened, sealed } = header;
    let enc_tkt: &'a EncTicketPart = &opened.enc_tkt;
    let subkey: bool = opened.authenticator.subkey.is_some();
    let gathered = gather_tgs_req_info(
        store,
        options,
        body,
        unsupported_options,
        opened,
        sealed,
        host,
        hops,
        &seen,
        &verify,
    );
    proof {
        assert(bool_slice(options) == options_of(fast));
        assert(gather_result(
            store,
            options_of(fast),
            *body,
            unsupported_options,
            *whole.opened,
            *whole.sealed,
            *host,
            hops@,
            seen,
            verify,
            gathered,
        ));
    }
    let server: &'a Principal = match gathered {
        Err(e) => {
            return Err(e);
        },
        Ok(p) => p,
    };
    let sname: &'a PrincipalName = match &body.sname {
        Some(n) => n,
        None => {
            return Err(proto(S_PRINCIPAL_UNKNOWN, Status::NullServer));
        },
    };
    let req: TgsRequest<'a> = TgsRequest {
        body,
        header_sname,
        header_realm,
        enc_tkt,
        sname,
        req_realm: body.realm.as_str(),
        server,
    };
    let looked = store.fetch_krbtgt();
    let (local, fault): (Option<&'a Principal>, Option<Error>) = match looked {
        Ok(t) => (t, None),
        Err(e) => (None, Some(e)),
    };
    let m = present(&req, local);
    let ghost material = m;
    let (shown, facts) = m;
    let header_pac: bool = shown.header_pac.is_some();
    let asked: &[PaData] = match fast {
        Some(f) => f.padata,
        None => padata,
    };
    let s4u = users.read(
        store.realm(),
        &opened.enc_tkt.key,
        &opened.authenticator.subkey,
        asked,
        body.nonce,
    );
    let ghost acting = s4u;
    let out = shown.with_user(s4u);
    let out: TgsOutside = match fault {
        None => out,
        Some(e) => TgsOutside { stkt: Err(e), ..out },
    };
    let ghost tgt = local;
    proof {
        assert(out == with_local(store, material.0.spec_with_user(acting)));
        assert(users.reads(
            store.realm_view(),
            opened.enc_tkt.key,
            opened.authenticator.subkey,
            asked_padata(fast, padata@),
            body.nonce,
            acting,
        ));
        assert(is_local(store, tgt));
    }
    let c = check_tgs_req(
        store,
        &req,
        out,
        facts,
        local,
        now,
        &read,
        &write,
        &append,
        &allow,
        &get,
    );
    proof {
        assert(call_ensures(present, (&req, tgt), material));
        assert(tgs_req_result(
            store,
            req,
            with_local(store, material.0.spec_with_user(acting)),
            material.1,
            tgt,
            now,
            read,
            write,
            append,
            allow,
            get,
            c,
        ));
    }
    let ghost checked = c;
    let r: Result<TgsIssue<'a>, Error> = match c {
        Err(e) => Err(e),
        Ok((s, k)) => conclude(
            store,
            &req,
            header_pac,
            subkey,
            padata,
            fast,
            now,
            &fresh,
            &decide,
            &named,
            &derive,
            s,
            k,
            local,
        ),
    };
    proof {
        assert(tgs_found_result(
            store,
            req,
            *whole.opened,
            padata@,
            fast,
            now,
            users,
            present,
            read,
            write,
            append,
            allow,
            get,
            fresh,
            decide,
            named,
            derive,
            r,
        ));
        assert(req == request_for(body, whole, &body.sname->0, req.req_realm, server));
    }
    r
}

/// The padata that are answered are those inside the FAST layer, where there is
/// one.
pub proof fn law_asked_padata(f: FastFacts, outer: Seq<PaData>)
    ensures
        asked_padata(Some(&f), outer) == f.padata@,
        asked_padata(None, outer) == outer,
{
}

/// The PAC of a ticket for the ticket-granting service of another realm is signed
/// with the key of that ticket, and every other with the local one.
pub proof fn law_foreign_tgts_sign_with_their_key(
    policy: Policy,
    realm: Seq<char>,
    server: Principal,
    ticket_key: (i32, Seq<u8>),
    local: Principal,
    k: (i32, Seq<u8>),
)
    requires
        tgs_kdc_source(policy, realm, server, ticket_key, local, k),
    ensures
        server.name@.is_krbtgt() && !server.name@.is_krbtgt_for(realm) ==> k == ticket_key,
        !server.name@.is_krbtgt() || server.name@.is_krbtgt_for(realm) ==> is_current_key(
            policy,
            local,
            k,
        ),
{
}

} // verus!
