//! TGS requests: gathering what a request is about, judging it, and setting
//! the flags and times of the ticket that answers it.

use crate::ad::logon::{passed_logon, passed_logon_result};
use crate::ad::s4u::X509User;
use crate::ad::verify::{get_verified_pac, verified_pac_result, PacFault};
use crate::ad::{
    check_indicators, check_normal_tgs_pac, check_s4u2proxy_policy, check_tgs_s4u2proxy,
    rbcd_client, rbcd_pac_client, spec_check_indicators, spec_normal_tgs_pac,
    spec_s4u2proxy_policy, spec_tgs_s4u2proxy, CksumOutcome, CksumType, LogonSids, REQUIRE_AUTH,
};
use crate::error::{
    proto, refusal, refuses, spec_with_status, with_status, Error, Status, BADMATCH, BAD_INTEGRITY,
    BADOPTION, ETYPE_NOSUPP, GENERIC, ILL_CR_TKT, POLICY, REPEAT, S_PRINCIPAL_UNKNOWN,
    TRTYPE_NOSUPP,
};
use crate::flags::{
    Flags, CNAME_IN_ADDL_TKT, DISABLE_TRANSITED_CHECK, ENC_TKT_IN_SKEY, FORWARDABLE, POSTDATED,
    RENEW, RENEWABLE, TRANSITED_POLICY_CHECKED, VALIDATE,
};
use crate::issue::answer_tgs::{is_entry, local_lookup};
use crate::issue::as_req::is_current_key;
use crate::issue::client_time::replay_server;
use crate::issue::header::HeaderTgt;
use crate::issue::kdc_util::{
    check_fast_options, find_server_key, first_session_enctype, i32_slice, is_server_key,
    no_server_key, select_session_keytype, session_enctype_ok, unknown_critical_option,
};
use crate::issue::mint::KU_TICKET;
use crate::issue::sprinc::{
    found, issuing_referral, search_sprinc, spec_search_sprinc, tgs_header_is_crossrealm,
    tgs_issuing_referral, HostFacts,
};
use crate::issue::tgs_policy::{
    check_anon, check_tgs_constraints_skeleton, check_tgs_policy_flags, check_tgs_s4u2self,
    check_tgs_u2u, entries_match, same_entry, spec_check_anon, spec_policy_flags,
    spec_tgs_constraints, spec_tgs_s4u2self, spec_tgs_u2u, Lockout, S4u2Self, SecondTicket,
};
use crate::issue::times::{
    add_seconds, get_ticket_flags, interval, kdc_get_ticket_endtime, kdc_get_ticket_renewtime,
    keeps_forwardable, min_u32, s4u2self_forwardable, signed_interval, spec_add_seconds,
    spec_renewtime, spec_ticket_endtime, ticket_flag,
};
use crate::kdb::{fetched, PrincipalRead};
use crate::msg::{
    key_octets, EncTicketPart, EncryptionKey, KdcReqBody, Ticket, TransitedEncoding,
};
use crate::name::{lookup_principal_id, spec_lookup_principal_id, NameView, PrincipalName};
use crate::pac::PacFacts;
use crate::store::{
    attr, attr_set, contains_i32, is_first_attr, lemma_finds_enctype_unique, Policy, Principal,
    KDB_DISALLOW_ALL_TIX, KDB_DISALLOW_SVR, KDB_NO_AUTH_DATA_REQUIRED,
};
use crate::text::str_eq;
use vstd::prelude::*;
use vstd::string::*;

verus! {

pub open spec fn bool_slice(v: Option<&[bool]>) -> Option<Seq<bool>> {
    match v {
        Some(s) => Some(s@),
        None => None,
    }
}

/// The refusal of a TGS request by its FAST options and its request options.
pub open spec fn options_refusal(
    fast_options: Option<Seq<bool>>,
    o: Flags,
    unsupported_options: bool,
) -> Option<Error> {
    if fast_options matches Some(v) && unknown_critical_option(v) {
        Some(refusal(crate::error::UNKNOWN_CRITICAL_FAST_OPTION, Status::FastOption))
    } else if unsupported_options {
        Some(refusal(BADOPTION, Status::UnknownReason))
    } else if o.has(RENEW as int) && o.has(VALIDATE as int) {
        Some(refusal(BADOPTION, Status::TicketNotRenewable))
    } else {
        None
    }
}

/// `b` is what the replay cache says of an authenticator. It is asked with the
/// client, the local ticket-granting service, the time and the encrypted octets.
pub open spec fn authenticator_seen<Q: Fn(&String, &String, u32, u32, &Vec<u8>) -> bool>(
    realm: Seq<char>,
    h: HeaderTgt,
    sealed: Vec<u8>,
    seen: Q,
    b: bool,
) -> bool {
    exists|c: String, s: String|
        {
            &&& c@ == h.authenticator.cname@.joined().push('@') + h.enc_tkt.crealm@
            &&& s@ == replay_server(realm)
            &&& #[trigger] call_ensures(
                seen,
                (&c, &s, h.authenticator.ctime, h.authenticator.cusec, &sealed),
                b,
            )
        }
}

/// `v` is how the PAC of the header ticket fared: `verify` is asked about the ticket,
/// the key that opened it, its server and the local ticket-granting service.
pub open spec fn header_pac_judged<
    P: Fn(&EncTicketPart, &EncryptionKey, &Principal, Option<&Principal>) -> Result<(), Error>,
>(h: HeaderTgt, local: Option<&Principal>, verify: P, v: Result<(), Error>) -> bool {
    exists|k: EncryptionKey|
        key_octets(k) == h.header_server.keys@[h.tgt_key as int].octets()
            && #[trigger] call_ensures(verify, (&h.enc_tkt, &k, h.header_server, local), v)
}

/// What gathering comes to for a server that is asked for in this realm: the PAC of
/// the header ticket is judged, then the entry that answers is looked for.
pub open spec fn gathered_server<
    S: PrincipalRead,
    P: Fn(&EncTicketPart, &EncryptionKey, &Principal, Option<&Principal>) -> Result<(), Error>,
>(
    store: &S,
    body: KdcReqBody,
    sname: PrincipalName,
    h: HeaderTgt,
    host: HostFacts,
    hops: Seq<String>,
    verify: P,
    r: Result<&Principal, Error>,
) -> bool {
    match local_lookup(store) {
        Err(e) => r matches Err(x) && x == e,
        Ok(p) => exists|local: Option<&Principal>, v: Result<(), Error>|
            {
                &&& is_entry(local, p)
                &&& #[trigger] header_pac_judged(h, local, verify, v)
                &&& match v {
                    Err(e) => r matches Err(x) && x == e,
                    Ok(()) => found(r) == spec_search_sprinc(
                        store,
                        sname@,
                        body.realm@,
                        body,
                        host,
                        hops,
                    ),
                }
            },
    }
}

/// What a TGS request is about, in the order in which it is gathered: FAST
/// options, request options, replay, server, realm, the header ticket's PAC,
/// and the entry that answers.
pub open spec fn gather_result<
    S: PrincipalRead,
    Q: Fn(&String, &String, u32, u32, &Vec<u8>) -> bool,
    P: Fn(&EncTicketPart, &EncryptionKey, &Principal, Option<&Principal>) -> Result<(), Error>,
>(
    store: &S,
    fast_options: Option<Seq<bool>>,
    body: KdcReqBody,
    unsupported_options: bool,
    h: HeaderTgt,
    sealed: Vec<u8>,
    host: HostFacts,
    hops: Seq<String>,
    seen: Q,
    verify: P,
    r: Result<&Principal, Error>,
) -> bool {
    match options_refusal(fast_options, body.kdc_options, unsupported_options) {
        Some(e) => r matches Err(x) && x == e,
        None => exists|b: bool| #[trigger]
            authenticator_seen(store.realm_view(), h, sealed, seen, b) && (if b {
                r matches Err(x) && x == refusal(REPEAT, Status::ProcessTgs)
            } else {
                match body.sname {
                    None => r matches Err(x) && x == refusal(
                        S_PRINCIPAL_UNKNOWN,
                        Status::NullServer,
                    ),
                    Some(sname) => if body.realm@ != store.realm_view() {
                        r matches Err(x) && x == refusal(GENERIC, Status::GetLocalTgt)
                    } else {
                        gathered_server(store, body, sname, h, host, hops, verify, r)
                    },
                }
            }),
    }
}

/// A TGS request whose authenticator was seen before is refused as a repeat, whatever
/// else it asks for, where its options are in order.
pub proof fn law_repeated_request_is_refused<
    S: PrincipalRead,
    Q: Fn(&String, &String, u32, u32, &Vec<u8>) -> bool,
    P: Fn(&EncTicketPart, &EncryptionKey, &Principal, Option<&Principal>) -> Result<(), Error>,
>(
    store: &S,
    fast_options: Option<Seq<bool>>,
    body: KdcReqBody,
    unsupported_options: bool,
    h: HeaderTgt,
    sealed: Vec<u8>,
    host: HostFacts,
    hops: Seq<String>,
    seen: Q,
    verify: P,
    r: Result<&Principal, Error>,
)
    requires
        options_refusal(fast_options, body.kdc_options, unsupported_options) is None,
        forall|b: bool| #[trigger]
            authenticator_seen(store.realm_view(), h, sealed, seen, b) ==> b,
        gather_result(
            store,
            fast_options,
            body,
            unsupported_options,
            h,
            sealed,
            host,
            hops,
            seen,
            verify,
            r,
        ),
    ensures
        r matches Err(x) && x == refusal(REPEAT, Status::ProcessTgs),
{
}

/// Gathers what a TGS request is about and finds the entry that answers it. `sealed`
/// is the authenticator as it came. `seen` keeps an authenticator, and says whether it
/// was kept before; `verify` says how the PAC of a ticket fares.
pub fn gather_tgs_req_info<
    'a,
    S: PrincipalRead,
    Q: Fn(&String, &String, u32, u32, &Vec<u8>) -> bool,
    P: Fn(&EncTicketPart, &EncryptionKey, &Principal, Option<&Principal>) -> Result<(), Error>,
>(
    store: &'a S,
    fast_options: Option<&[bool]>,
    body: &KdcReqBody,
    unsupported_options: bool,
    h: &HeaderTgt,
    sealed: &Vec<u8>,
    host: &HostFacts,
    hops: &[String],
    seen: &Q,
    verify: &P,
) -> (r: Result<&'a Principal, Error>)
    requires
        h.tgt_key < h.header_server.keys@.len(),
        forall|c: String, s: String, t: u32, u: u32, b: Vec<u8>| #[trigger]
            call_requires(*seen, (&c, &s, t, u, &b)),
        forall|x: EncTicketPart, k: EncryptionKey, p: Principal, l: Option<&Principal>| #[trigger]
            call_requires(*verify, (&x, &k, &p, l)),
    ensures
        gather_result(
            store,
            bool_slice(fast_options),
            *body,
            unsupported_options,
            *h,
            *sealed,
            *host,
            hops@,
            *seen,
            *verify,
            r,
        ),
{
    if let Some(o) = fast_options {
        match check_fast_options(o) {
            Err(e) => {
                return Err(e);
            },
            Ok(()) => {},
        }
    }
    if unsupported_options {
        return Err(proto(BADOPTION, Status::UnknownReason));
    }
    if body.kdc_options.bit(RENEW) && body.kdc_options.bit(VALIDATE) {
        return Err(proto(BADOPTION, Status::TicketNotRenewable));
    }
    let mut client = h.authenticator.cname.components_joined();
    client.push('@');
    client.append(h.enc_tkt.crealm.as_str());
    let server = lookup_principal_id(&PrincipalName::krbtgt(store.realm()), store.realm());
    let b: bool = seen(
        &client,
        &server,
        h.authenticator.ctime,
        h.authenticator.cusec,
        sealed,
    );
    assert(authenticator_seen(store.realm_view(), *h, *sealed, *seen, b));
    if b {
        return Err(proto(REPEAT, Status::ProcessTgs));
    }
    let sname = match &body.sname {
        Some(n) => n,
        None => {
            return Err(proto(S_PRINCIPAL_UNKNOWN, Status::NullServer));
        },
    };
    if !str_eq(body.realm.as_str(), store.realm()) {
        return Err(proto(GENERIC, Status::GetLocalTgt));
    }
    let local: Option<&Principal> = match store.fetch_krbtgt() {
        Err(e) => {
            return Err(e);
        },
        Ok(l) => l,
    };
    let k = h.header_server.keys[h.tgt_key].to_key();
    let v = verify(&h.enc_tkt, &k, h.header_server, local);
    assert(header_pac_judged(*h, local, *verify, v));
    match v {
        Err(e) => {
            return Err(e);
        },
        Ok(()) => {},
    }
    search_sprinc(store, sname, body.realm.as_str(), body, host, hops)
}

/// A TGS request with the ticket that it presents and the entry that answers
/// it.
pub struct TgsRequest<'a> {
    /// The body.
    pub body: &'a KdcReqBody,
    /// Server of the presented ticket.
    pub header_sname: &'a PrincipalName,
    /// Realm of the presented ticket's server.
    pub header_realm: &'a str,
    /// The presented ticket.
    pub enc_tkt: &'a EncTicketPart,
    /// Requested server.
    pub sname: &'a PrincipalName,
    /// Requested realm.
    pub req_realm: &'a str,
    /// The entry that answers.
    pub server: &'a Principal,
}

/// What opening and checking the parts of a TGS request brought.
pub struct TgsOutside {
    /// The user that the request is on behalf of, where it is.
    pub s4u: Result<Option<S4u2Self>, Error>,
    /// The second ticket, where there is one.
    pub stkt: Result<Option<SecondTicket>, Error>,
    /// The presented ticket's PAC, where it has one.
    pub header_pac: Option<Result<PacFacts, Error>>,
    /// The logon information of that PAC, where just one buffer holds it.
    pub logon: Option<Vec<u8>>,
    /// The presented ticket's client, name with realm.
    pub header_client: String,
    /// The second ticket's client, name with realm.
    pub evidence_client: String,
    /// The requested server as a name.
    pub target: Option<String>,
}

/// For whom, from where and to where a ticket is issued.
pub struct TgsSubject {
    /// The request is on behalf of another user.
    pub s4u2self: bool,
    /// The request is a delegation.
    pub s4u2proxy: bool,
    /// The answer is a ticket-granting service that was not asked for.
    pub is_referral: bool,
    /// The presented ticket is from another realm than the server.
    pub is_crossrealm: bool,
    /// The client's failure count starts again.
    pub restart_count: bool,
    /// Client of the new ticket.
    pub cname: PrincipalName,
    /// Client realm of the new ticket.
    pub crealm: String,
    /// The user acted for, where the request is on behalf of one.
    pub s4u_subject: Option<(PrincipalName, String)>,
    /// Time of initial authentication.
    pub authtime: u32,
    /// The second ticket.
    pub stkt: Option<SecondTicket>,
    /// The entry of the user acted for, where the user is local.
    pub s4u_local: Option<Principal>,
    /// The PA-S4U-X509-USER that named the user acted for, where one did.
    pub s4u_x509: Option<X509User>,
    /// The logon information for the new ticket's PAC, where it is not its own.
    pub logon: Option<Vec<u8>>,
}

/// What a [`TgsSubject`] says.
#[verifier::ext_equal]
pub struct SubjectView {
    /// The request is on behalf of another user.
    pub s4u2self: bool,
    /// The request is a delegation.
    pub s4u2proxy: bool,
    /// The answer is a ticket-granting service that was not asked for.
    pub is_referral: bool,
    /// The presented ticket is from another realm than the server.
    pub is_crossrealm: bool,
    /// The client's failure count starts again.
    pub restart_count: bool,
    /// Client of the new ticket.
    pub cname: NameView,
    /// Client realm of the new ticket.
    pub crealm: Seq<char>,
    /// The user acted for.
    pub s4u_subject: Option<(NameView, Seq<char>)>,
    /// Time of initial authentication.
    pub authtime: u32,
}

impl View for TgsSubject {
    type V = SubjectView;

    open spec fn view(&self) -> SubjectView {
        SubjectView {
            s4u2self: self.s4u2self,
            s4u2proxy: self.s4u2proxy,
            is_referral: self.is_referral,
            is_crossrealm: self.is_crossrealm,
            restart_count: self.restart_count,
            cname: self.cname@,
            crealm: self.crealm@,
            s4u_subject: match self.s4u_subject {
                Some((n, r)) => Some((n@, r@)),
                None => None,
            },
            authtime: self.authtime,
        }
    }
}

/// What a lookup of a name in the store's realm brings.
pub open spec fn name_lookup<S: PrincipalRead>(store: &S, name: NameView) -> Result<
    Option<Principal>,
    Error,
> {
    store.lookup(spec_lookup_principal_id(name, store.realm_view()))
}

/// The answer is a referral.
pub open spec fn request_is_referral(req: TgsRequest) -> bool {
    issuing_referral(req.sname@, req.req_realm@, *req.server)
}

/// The presented ticket is from another realm than the server.
pub open spec fn request_is_crossrealm(req: TgsRequest) -> bool {
    req.header_realm@ != req.server.realm@
}

/// What is known of the failed authentications of the user acted for, where the
/// user is of this realm.
pub open spec fn s4u_lockout<S: PrincipalRead>(store: &S, s4u: S4u2Self) -> Lockout {
    match s4u.local {
        Some(p) => store.lockout_view(p),
        None => Lockout { fails: 0, last_failed: 0, max_fail: 0, interval: 0, duration: 0 },
    }
}

/// A request on behalf of another user, judged: it is for the client itself
/// as a server, or on its way there.
pub open spec fn s4u_stage<S: PrincipalRead>(
    store: &S,
    req: TgsRequest,
    s4u: S4u2Self,
    header_pac: Option<Result<PacFacts, Error>>,
    header_client: Option<Principal>,
    now: u32,
) -> Result<bool, Error> {
    let is_self = req.enc_tkt.crealm@ == store.realm_view() && (header_client matches Some(c)
        && same_entry(c, *req.server));
    if !request_is_referral(req) && !is_self {
        Err(refusal(BADMATCH, Status::InvalidS4u2selfRequestServerMismatch))
    } else {
        spec_tgs_s4u2self(
            store.policy_view(),
            store.realm_view(),
            *req.body,
            s4u,
            req.header_realm@ != store.realm_view(),
            request_is_referral(req),
            *req.enc_tkt,
            header_pac,
            s4u_lockout(store, s4u),
            now,
        )
    }
}

/// The second ticket of a user-to-user request, judged.
pub open spec fn u2u_stage<S: PrincipalRead>(
    store: &S,
    req: TgsRequest,
    stkt: Option<SecondTicket>,
) -> Result<(), Error> {
    if req.body.kdc_options.has(ENC_TKT_IN_SKEY as int) {
        spec_tgs_u2u(
            stkt,
            match stkt {
                Some(st) => store.lookup(
                    spec_lookup_principal_id(st.part.cname@, st.part.crealm@),
                ),
                None => Ok(None),
            },
            *req.server,
        )
    } else {
        Ok(())
    }
}

/// An entry, where the lookup brought one.
pub open spec fn if_found(r: Result<Option<Principal>, Error>) -> Option<Principal> {
    match r {
        Ok(v) => v,
        Err(_) => None,
    }
}

/// A delegation, judged; the client that it is for.
pub open spec fn proxy_stage<S: PrincipalRead>(
    store: &S,
    req: TgsRequest,
    header_pac: Option<Result<PacFacts, Error>>,
    evidence_client: Seq<char>,
    target: Option<Seq<char>>,
    stkt: Option<SecondTicket>,
) -> Result<(NameView, Seq<char>), Error> {
    match stkt {
        None => Err(refusal(GENERIC, Status::UnknownReason)),
        Some(st) => if request_is_crossrealm(req) && (st.pac is None || rbcd_client(
            st.pac->0,
        ) is None) {
            Err(refusal(BADOPTION, Status::RbcdPacPrinc))
        } else {
            match spec_tgs_s4u2proxy(
                *req.body,
                *req.enc_tkt,
                header_pac,
                stkt,
                if_found(name_lookup(store, req.enc_tkt.cname@)),
                evidence_client,
                target,
                req.server.realm@,
                request_is_crossrealm(req),
                request_is_referral(req),
            ) {
                Err(e) => Err(e),
                Ok(()) => if request_is_crossrealm(req) {
                    Ok(rbcd_client(st.pac->0)->0)
                } else {
                    Ok((st.part.cname@, st.part.crealm@))
                },
            }
        },
    }
}

/// The logon information of the presented ticket goes into the new one: the
/// request is neither on behalf of another user nor a delegation.
pub open spec fn passes_logon(req: TgsRequest, out: TgsOutside) -> bool {
    (out.s4u matches Ok(None)) && !req.body.kdc_options.has(CNAME_IN_ADDL_TKT as int)
}

/// `l` is what comes of the logon information of the presented ticket.
pub open spec fn logon_stage<
    R: Fn(&Vec<u8>) -> Result<LogonSids, String>,
    N: Fn(&Vec<u8>, &LogonSids) -> Vec<u8>,
>(
    req: TgsRequest,
    realm: Seq<char>,
    out: TgsOutside,
    read: R,
    write: N,
    l: Result<Option<Vec<u8>>, Error>,
) -> bool {
    match out.logon {
        Some(v) if passes_logon(req, out) => exists|x: Result<Vec<u8>, Error>|
            {
                &&& #[trigger] passed_logon_result(req.header_realm@, realm, v, read, write, x)
                &&& match x {
                    Ok(o) => l == Ok::<Option<Vec<u8>>, Error>(Some(o)),
                    Err(e) => l == Err::<Option<Vec<u8>>, Error>(e),
                }
            },
        _ => l == Ok::<Option<Vec<u8>>, Error>(None),
    }
}

/// The logon information that is passed on.
pub open spec fn logon_kept(l: Result<Option<Vec<u8>>, Error>) -> Option<Vec<u8>> {
    match l {
        Ok(v) => v,
        Err(_) => None,
    }
}

/// What comes of the logon information of the presented ticket.
fn judge_logon<
    R: Fn(&Vec<u8>) -> Result<LogonSids, String>,
    N: Fn(&Vec<u8>, &LogonSids) -> Vec<u8>,
>(req: &TgsRequest, realm: &str, out: &TgsOutside, read: &R, write: &N) -> (l: Result<
    Option<Vec<u8>>,
    Error,
>)
    requires
        forall|x: Vec<u8>| #[trigger] call_requires(*read, (&x,)),
        forall|x: Vec<u8>, l: LogonSids| #[trigger] call_requires(*write, (&x, &l)),
    ensures
        logon_stage(*req, realm@, *out, *read, *write, l),
{
    let plain: bool = match &out.s4u {
        Ok(None) => !req.body.kdc_options.bit(CNAME_IN_ADDL_TKT),
        _ => false,
    };
    if !plain {
        return Ok(None);
    }
    match &out.logon {
        None => Ok(None),
        Some(v) => {
            let x = passed_logon(req.header_realm, realm, v, read, write);
            assert(passed_logon_result(req.header_realm@, realm@, *v, *read, *write, x));
            match x {
                Ok(o) => Ok(Some(o)),
                Err(e) => Err(e),
            }
        },
    }
}

/// For whom, from where and to where the ticket is issued, or the refusal,
/// in the order in which the request is judged: the presented ticket, the
/// user acted for, the second ticket, the realms on the way, user-to-user,
/// then delegation or the presented ticket's PAC.
pub open spec fn spec_judge_subject<S: PrincipalRead>(
    store: &S,
    req: TgsRequest,
    out: TgsOutside,
    logon: Result<Option<Vec<u8>>, Error>,
    now: u32,
) -> Result<SubjectView, Error> {
    let o = req.body.kdc_options;
    let is_referral = request_is_referral(req);
    let is_crossrealm = request_is_crossrealm(req);
    let header_client = name_lookup(store, req.enc_tkt.cname@);
    let constraints = spec_tgs_constraints(
        o,
        req.header_sname@,
        req.header_realm@,
        *req.enc_tkt,
        req.sname@,
        req.req_realm@,
        now,
    );
    if constraints is Err {
        Err(constraints->Err_0)
    } else if header_client is Err {
        Err(header_client->Err_0)
    } else if out.s4u is Err {
        Err(out.s4u->Err_0)
    } else {
        let user = out.s4u->Ok_0;
        let s4u = match user {
            Some(u) => s4u_stage(
                store,
                req,
                u,
                out.header_pac,
                header_client->Ok_0,
                now,
            ),
            None => Ok(false),
        };
        if s4u is Err {
            Err(s4u->Err_0)
        } else if out.stkt is Err {
            Err(out.stkt->Err_0)
        } else if req.enc_tkt.crealm@ == store.realm_view() && is_crossrealm && user is None {
            Err(refusal(POLICY, Status::InvalidLineage))
        } else if u2u_stage(store, req, out.stkt->Ok_0) is Err {
            Err(u2u_stage(store, req, out.stkt->Ok_0)->Err_0)
        } else {
            let base = SubjectView {
                s4u2self: user is Some,
                s4u2proxy: false,
                is_referral,
                is_crossrealm,
                restart_count: s4u->Ok_0,
                cname: if user is Some && !is_referral {
                    user->0.user@
                } else {
                    req.enc_tkt.cname@
                },
                crealm: if user is Some && !is_referral {
                    user->0.realm@
                } else {
                    req.enc_tkt.crealm@
                },
                s4u_subject: match user {
                    Some(u) => Some((u.user@, u.realm@)),
                    None => None,
                },
                authtime: req.enc_tkt.authtime,
            };
            if o.has(CNAME_IN_ADDL_TKT as int) {
                match proxy_stage(
                    store,
                    req,
                    out.header_pac,
                    out.evidence_client@,
                    match out.target {
                        Some(t) => Some(t@),
                        None => None,
                    },
                    out.stkt->Ok_0,
                ) {
                    Err(e) => Err(e),
                    Ok((n, r)) => Ok(
                        SubjectView {
                            s4u2proxy: true,
                            cname: if is_referral {
                                base.cname
                            } else {
                                n
                            },
                            crealm: if is_referral {
                                base.crealm
                            } else {
                                r
                            },
                            s4u_subject: Some((n, r)),
                            authtime: out.stkt->Ok_0->0.part.authtime,
                            ..base
                        },
                    ),
                }
            } else if user is Some {
                Ok(base)
            } else {
                match spec_normal_tgs_pac(
                    *req.enc_tkt,
                    out.header_client@,
                    out.header_pac,
                    *req.server,
                    is_crossrealm,
                ) {
                    Err(e) => Err(e),
                    Ok(()) => match logon {
                        Err(e) => Err(e),
                        Ok(_) => Ok(base),
                    },
                }
            }
        }
    }
}

/// A subject, by what it says.
pub open spec fn subject_result(r: Result<TgsSubject, Error>) -> Result<SubjectView, Error> {
    match r {
        Ok(s) => Ok(s@),
        Err(e) => Err(e),
    }
}

fn judge_proxy<S: PrincipalRead>(
    store: &S,
    req: &TgsRequest,
    header_pac: &Option<Result<PacFacts, Error>>,
    evidence_client: &str,
    target: Option<&str>,
    stkt: &Option<SecondTicket>,
    is_crossrealm: bool,
    is_referral: bool,
) -> (r: Result<(PrincipalName, String, u32), Error>)
    requires
        is_crossrealm == request_is_crossrealm(*req),
        is_referral == request_is_referral(*req),
    ensures
        match proxy_stage(
            store,
            *req,
            *header_pac,
            evidence_client@,
            crate::pac::str_view(target),
            *stkt,
        ) {
            Err(e) => r == Err::<(PrincipalName, String, u32), Error>(e),
            Ok((n, x)) => r matches Ok(t) && t.0@ == n && t.1@ == x && t.2
                == stkt->0.part.authtime,
        },
{
    let st = match stkt {
        Some(st) => st,
        None => {
            return Err(proto(GENERIC, Status::UnknownReason));
        },
    };
    let mut foreign: Option<(PrincipalName, String)> = None;
    if is_crossrealm {
        match &st.pac {
            None => {
                return Err(proto(BADOPTION, Status::RbcdPacPrinc));
            },
            Some(pac) => match rbcd_pac_client(pac) {
                Err(e) => {
                    return Err(e);
                },
                Ok(c) => {
                    foreign = Some(c);
                },
            },
        }
    }
    let alias: Option<&Principal> = match store.fetch_name(&req.enc_tkt.cname) {
        Ok(v) => v,
        Err(_) => None,
    };
    match check_tgs_s4u2proxy(
        req.body,
        req.enc_tkt,
        header_pac,
        stkt,
        alias,
        evidence_client,
        target,
        req.server.realm.as_str(),
        is_crossrealm,
        is_referral,
    ) {
        Err(e) => {
            return Err(e);
        },
        Ok(()) => {},
    }
    match foreign {
        Some((n, x)) => Ok((n, x, st.part.authtime)),
        None => Ok((st.part.cname.copy(), st.part.crealm.clone(), st.part.authtime)),
    }
}

/// Judges for whom, from where and to where a ticket is issued. `logon` is what
/// came of the logon information of the presented ticket.
pub fn judge_tgs_subject<S: PrincipalRead>(
    store: &S,
    req: &TgsRequest,
    out: TgsOutside,
    logon: Result<Option<Vec<u8>>, Error>,
    now: u32,
) -> (r: Result<TgsSubject, Error>)
    ensures
        subject_result(r) == spec_judge_subject(store, *req, out, logon, now),
        r matches Ok(s) ==> s.logon == logon_kept(logon),
        r matches Ok(s) ==> out.stkt == Ok::<Option<SecondTicket>, Error>(s.stkt) && s.s4u_local
            == (match out.s4u->Ok_0 {
            Some(u) => u.local,
            None => None,
        }),
        r matches Ok(s) ==> s.s4u_x509 == (match out.s4u->Ok_0 {
            Some(u) => u.x509,
            None => None,
        }),
{
    let TgsOutside {
        s4u,
        stkt,
        header_pac,
        logon: _,
        header_client: client,
        evidence_client,
        target,
    } = out;
    match check_tgs_constraints_skeleton(
        req.body,
        req.header_sname,
        req.header_realm,
        req.enc_tkt,
        req.sname,
        req.req_realm,
        now,
    ) {
        Err(e) => {
            return Err(e);
        },
        Ok(()) => {},
    }
    let header_client = match store.fetch_name(&req.enc_tkt.cname) {
        Err(e) => {
            return Err(e);
        },
        Ok(v) => v,
    };
    let is_referral = tgs_issuing_referral(req.sname, req.req_realm, req.server);
    let is_crossrealm = tgs_header_is_crossrealm(req.header_realm, req.server.realm.as_str());
    let local_client: bool = str_eq(req.enc_tkt.crealm.as_str(), store.realm());
    let mut cname = req.enc_tkt.cname.copy();
    let mut crealm = req.enc_tkt.crealm.clone();
    let mut s4u_subject: Option<(PrincipalName, String)> = None;
    let mut s4u2self: bool = false;
    let mut restart_count: bool = false;
    let mut s4u_local: Option<Principal> = None;
    let mut s4u_x509: Option<X509User> = None;
    match s4u {
        Err(e) => {
            return Err(e);
        },
        Ok(None) => {},
        Ok(Some(s4u)) => {
            let header_cross: bool = !str_eq(req.header_realm, store.realm());
            let is_self: bool = local_client && match header_client {
                Some(c) => entries_match(c, req.server),
                None => false,
            };
            if !is_referral && !is_self {
                return Err(proto(BADMATCH, Status::InvalidS4u2selfRequestServerMismatch));
            }
            let lockout: Lockout = match &s4u.local {
                Some(p) => store.lockout_of(p),
                None => Lockout {
                    fails: 0,
                    last_failed: 0,
                    max_fail: 0,
                    interval: 0,
                    duration: 0,
                },
            };
            match check_tgs_s4u2self(
                store.policy(),
                store.realm(),
                req.body,
                &s4u,
                header_cross,
                is_referral,
                req.enc_tkt,
                &header_pac,
                lockout,
                now,
            ) {
                Err(e) => {
                    return Err(e);
                },
                Ok(b) => {
                    restart_count = b;
                },
            }
            if !is_referral {
                cname = s4u.user.copy();
                crealm = s4u.realm.clone();
            }
            s4u_subject = Some((s4u.user, s4u.realm));
            s4u_local = s4u.local;
            s4u_x509 = s4u.x509;
            s4u2self = true;
        },
    }
    let stkt = match stkt {
        Err(e) => {
            return Err(e);
        },
        Ok(v) => v,
    };
    if local_client && is_crossrealm && !s4u2self {
        return Err(proto(POLICY, Status::InvalidLineage));
    }
    if req.body.kdc_options.bit(ENC_TKT_IN_SKEY) {
        let client = match &stkt {
            Some(st) => {
                let id = lookup_principal_id(&st.part.cname, st.part.crealm.as_str());
                store.fetch(id.as_str())
            },
            None => Ok(None),
        };
        match check_tgs_u2u(&stkt, client, req.server) {
            Err(e) => {
                return Err(e);
            },
            Ok(()) => {},
        }
    }
    let mut authtime: u32 = req.enc_tkt.authtime;
    let mut s4u2proxy: bool = false;
    if req.body.kdc_options.bit(CNAME_IN_ADDL_TKT) {
        let target_name: Option<&str> = match &target {
            Some(t) => Some(t.as_str()),
            None => None,
        };
        match judge_proxy(
            store,
            req,
            &header_pac,
            evidence_client.as_str(),
            target_name,
            &stkt,
            is_crossrealm,
            is_referral,
        ) {
            Err(e) => {
                return Err(e);
            },
            Ok((n, x, at)) => {
                if !is_referral {
                    cname = n.copy();
                    crealm = x.clone();
                }
                s4u_subject = Some((n, x));
                authtime = at;
            },
        }
        s4u2proxy = true;
    } else if !s4u2self {
        match check_normal_tgs_pac(
            req.enc_tkt,
            client.as_str(),
            header_pac,
            req.server,
            is_crossrealm,
        ) {
            Err(e) => {
                return Err(e);
            },
            Ok(()) => {},
        }
        if let Err(e) = logon {
            return Err(e);
        }
    }
    let logon: Option<Vec<u8>> = match logon {
        Ok(v) => v,
        Err(_) => None,
    };
    let s = TgsSubject {
        s4u2self,
        s4u2proxy,
        is_referral,
        is_crossrealm,
        restart_count,
        cname,
        crealm,
        s4u_subject,
        authtime,
        stkt,
        s4u_local,
        s4u_x509,
        logon,
    };
    Ok(s)
}

/// Which key the new ticket is under.
#[derive(Clone, Copy, Debug, PartialEq, Eq, Structural)]
pub enum TicketKey {
    /// The session key of the second ticket.
    SecondTicketSession,
    /// This key of the server.
    ServerKey(usize),
}

/// What checking the policy of a TGS request needs from outside.
pub struct TgsFacts<'a> {
    /// The flag of PA-PAC-OPTIONS, where that datum is there.
    pub pac_options: Option<Result<bool, ()>>,
    /// The server's `session_enctypes`, where it has a list that can be read.
    pub session_enctypes: Option<&'a [i32]>,
    /// Whether the second ticket's session key is one.
    pub u2u_key: Result<(), Error>,
}

/// What the policy of a TGS request is judged by.
pub struct PolicyFacts<'a> {
    /// The presented ticket is a TGT.
    pub header_is_tgt: bool,
    /// The authentication indicators of the subject's ticket.
    pub indicators: Result<Vec<String>, Error>,
    /// The flag of PA-PAC-OPTIONS, where that datum is there.
    pub pac_options: Option<Result<bool, ()>>,
    /// The server's `session_enctypes`, where it has a list that can be read.
    pub session_enctypes: Option<&'a [i32]>,
    /// Whether the second ticket's session key is one.
    pub u2u_key: Result<(), Error>,
}

/// What the policy of a TGS request is judged by, with these indicators.
pub open spec fn policy_facts<'a>(
    facts: TgsFacts<'a>,
    req: TgsRequest,
    indicators: Result<Vec<String>, Error>,
) -> PolicyFacts<'a> {
    PolicyFacts {
        header_is_tgt: req.header_sname@.is_krbtgt(),
        indicators,
        pac_options: facts.pac_options,
        session_enctypes: facts.session_enctypes,
        u2u_key: facts.u2u_key,
    }
}

/// The ticket whose authentication indicators count: the second one, where there
/// is one, else the presented one.
pub open spec fn spec_indicator_ticket(
    stkt: Option<SecondTicket>,
    enc_tkt: EncTicketPart,
) -> EncTicketPart {
    match stkt {
        Some(st) => st.part,
        None => enc_tkt,
    }
}

/// `d` are the authentication indicators of the subject's ticket: `get` is asked for
/// them with the local ticket-granting service and its key. A request on behalf of a
/// user has none, and without that key it is refused.
pub open spec fn indicators_read<
    G: Fn(&EncTicketPart, &Principal, &EncryptionKey) -> Result<Vec<String>, Error>,
>(
    policy: Policy,
    s: TgsSubject,
    req: TgsRequest,
    local_tgt: Option<&Principal>,
    get: G,
    d: Result<Vec<String>, Error>,
) -> bool {
    (!s.s4u2self && local_tgt is Some && !policy.finds_enctype(*local_tgt->0, None, 0, None))
        ==> exists|k: EncryptionKey|
        is_current_key(policy, *local_tgt->0, key_octets(k)) && #[trigger] call_ensures(
            get,
            (&spec_indicator_ticket(s.stkt, *req.enc_tkt), local_tgt->0, &k),
            d,
        )
}

/// Reads the authentication indicators of the subject's ticket. The second part of
/// the result says whether the local ticket-granting service has a key.
fn read_indicators<
    G: Fn(&EncTicketPart, &Principal, &EncryptionKey) -> Result<Vec<String>, Error>,
>(
    policy: &Policy,
    s: &TgsSubject,
    req: &TgsRequest,
    local_tgt: Option<&Principal>,
    get: &G,
) -> (r: (Result<Vec<String>, Error>, bool))
    requires
        forall|x: EncTicketPart, p: Principal, k: EncryptionKey| #[trigger]
            call_requires(*get, (&x, &p, &k)),
    ensures
        indicators_read(*policy, *s, *req, local_tgt, *get, r.0),
        r.1 == (local_tgt is Some && !policy.finds_enctype(*local_tgt->0, None, 0, None)),
{
    let t = match local_tgt {
        None => {
            return (Ok(Vec::new()), false);
        },
        Some(t) => t,
    };
    let i: usize = match policy.first_current_key(t) {
        None => {
            return (Ok(Vec::new()), false);
        },
        Some(i) => i,
    };
    proof {
        if policy.finds_enctype(*t, None, 0, None) {
            lemma_finds_enctype_unique(*policy, *t, None, 0, Some(i), None);
        }
    }
    if s.s4u2self {
        return (Ok(Vec::new()), true);
    }
    let k = t.keys[i].to_key();
    let part = indicator_ticket(&s.stkt, req.enc_tkt);
    let d = get(part, t, &k);
    proof {
        assert(policy.finds_enctype(*t, None, 0, Some(i)));
        assert(is_current_key(*policy, *t, key_octets(k)));
        assert(call_ensures(
            *get,
            (&spec_indicator_ticket(s.stkt, *req.enc_tkt), local_tgt->0, &k),
            d,
        ));
    }
    (d, true)
}

/// The ticket whose authentication indicators count.
pub fn indicator_ticket<'a>(stkt: &'a Option<SecondTicket>, enc_tkt: &'a EncTicketPart) -> (r:
    &'a EncTicketPart)
    ensures
        *r == spec_indicator_ticket(*stkt, *enc_tkt),
{
    match stkt {
        Some(st) => &st.part,
        None => enc_tkt,
    }
}

/// A TGS request that passed every check but the times.
pub struct TgsChecked {
    /// Authentication indicators for the new ticket.
    pub indicators: Vec<String>,
    /// Keys of the new ticket.
    pub keys: TicketKeys,
    /// Transited realms of the new ticket.
    pub transited: TransitedEncoding,
    /// The realms on the way were checked and are allowed.
    pub set_transited_flag: bool,
}

/// The client realm by which the realms on the way are judged.
pub open spec fn transit_client_realm(subject: TgsSubject, tkt: EncTicketPart) -> Seq<char> {
    if subject.s4u2self || subject.s4u2proxy {
        subject.crealm@
    } else {
        tkt.crealm@
    }
}

/// The header realm joins the realms on the way.
pub open spec fn appends_realm(subject: TgsSubject, req: TgsRequest) -> bool {
    subject.is_crossrealm && req.header_realm@ != transit_client_realm(subject, *req.enc_tkt)
}

/// The realm of anonymous clients.
pub const ANONYMOUS_REALM: &'static str = "WELLKNOWN:ANONYMOUS";

/// The realms on the way are allowed, as far as the request lets them be
/// checked; those of an anonymous client always are.
pub open spec fn transit_ok(subject: TgsSubject, req: TgsRequest, allowed: bool) -> bool {
    !req.body.kdc_options.has(DISABLE_TRANSITED_CHECK as int) && (transit_client_realm(
        subject,
        *req.enc_tkt,
    ) == ANONYMOUS_REALM@ || allowed)
}

/// A ticket renewed or validated keeps the mark of the check.
pub open spec fn inherits_transit(req: TgsRequest) -> bool {
    (req.body.kdc_options.has(RENEW as int) || req.body.kdc_options.has(VALIDATE as int))
        && req.enc_tkt.flags.has(TRANSITED_POLICY_CHECKED as int)
}

/// `append` gave `a` for the ticket's transited field with the header realm
/// added, on the way from the client's realm to the one that was asked for; it
/// is asked only where that realm joins the realms on the way.
pub open spec fn realm_appended<
    A: Fn(&TransitedEncoding, &str, &str, &str) -> Result<TransitedEncoding, ()>,
>(
    subject: TgsSubject,
    req: TgsRequest,
    append: A,
    a: Result<TransitedEncoding, ()>,
) -> bool {
    if !appends_realm(subject, req) || req.enc_tkt.transited.tr_type != 1 {
        a is Err
    } else {
        exists|c: &str|
            c@ == transit_client_realm(subject, *req.enc_tkt) && #[trigger] call_ensures(
                append,
                (&req.enc_tkt.transited, req.header_realm, c, req.req_realm),
                a,
            )
    }
}

/// `allow` gave `ok` for the realms in a transited field, between the client's
/// realm and the one that was asked for; it is not asked for an anonymous
/// client.
pub open spec fn realms_asked<W: Fn(&TransitedEncoding, &str, &str) -> bool>(
    subject: TgsSubject,
    req: TgsRequest,
    allow: W,
    t: TransitedEncoding,
    ok: bool,
) -> bool {
    if transit_client_realm(subject, *req.enc_tkt) == ANONYMOUS_REALM@ {
        !ok
    } else {
        exists|c: &str|
            c@ == transit_client_realm(subject, *req.enc_tkt) && #[trigger] call_ensures(
                allow,
                (&t, c, req.req_realm),
                ok,
            )
    }
}

/// What appending the header realm and asking for the realms on the way gave:
/// those are the realms of the new ticket.
pub open spec fn transit_facts<
    A: Fn(&TransitedEncoding, &str, &str, &str) -> Result<TransitedEncoding, ()>,
    W: Fn(&TransitedEncoding, &str, &str) -> bool,
>(
    subject: TgsSubject,
    req: TgsRequest,
    append: A,
    allow: W,
    appended: Result<TransitedEncoding, ()>,
    allowed: bool,
) -> bool {
    &&& realm_appended(subject, req, append, appended)
    &&& if !appends_realm(subject, req) {
        realms_asked(subject, req, allow, req.enc_tkt.transited, allowed)
    } else {
        match appended {
            Ok(t) => realms_asked(subject, req, allow, t, allowed),
            Err(_) => !allowed,
        }
    }
}

/// Appends the header realm and asks for the realms on the way.
fn gather_transit<
    A: Fn(&TransitedEncoding, &str, &str, &str) -> Result<TransitedEncoding, ()>,
    W: Fn(&TransitedEncoding, &str, &str) -> bool,
>(subject: &TgsSubject, req: &TgsRequest, append: &A, allow: &W) -> (r: (
    Result<TransitedEncoding, ()>,
    bool,
))
    requires
        forall|t: TransitedEncoding, a: &str, b: &str, c: &str| #[trigger]
            call_requires(*append, (&t, a, b, c)),
        forall|t: TransitedEncoding, a: &str, b: &str| #[trigger]
            call_requires(*allow, (&t, a, b)),
    ensures
        transit_facts(*subject, *req, *append, *allow, r.0, r.1),
{
    let client_realm: &str = if subject.s4u2self || subject.s4u2proxy {
        subject.crealm.as_str()
    } else {
        req.enc_tkt.crealm.as_str()
    };
    let appends: bool = subject.is_crossrealm && !str_eq(req.header_realm, client_realm);
    let appended = if appends && req.enc_tkt.transited.tr_type == 1 {
        append(&req.enc_tkt.transited, req.header_realm, client_realm, req.req_realm)
    } else {
        Err(())
    };
    assert(realm_appended(*subject, *req, *append, appended));
    let anonymous: bool = str_eq(client_realm, ANONYMOUS_REALM);
    let allowed: bool = if anonymous {
        false
    } else if !appends {
        let ok: bool = allow(&req.enc_tkt.transited, client_realm, req.req_realm);
        assert(realms_asked(*subject, *req, *allow, req.enc_tkt.transited, ok));
        ok
    } else {
        match &appended {
            Ok(t) => {
                let ok: bool = allow(t, client_realm, req.req_realm);
                assert(realms_asked(*subject, *req, *allow, *t, ok));
                ok
            },
            Err(_) => false,
        }
    };
    (appended, allowed)
}

/// The realms on the way, judged.
pub open spec fn spec_transit_refusal(
    policy: Policy,
    subject: TgsSubject,
    req: TgsRequest,
    appended: Result<TransitedEncoding, ()>,
    allowed: bool,
) -> Option<Error> {
    if appends_realm(subject, req) && req.enc_tkt.transited.tr_type != 1 {
        Some(refusal(TRTYPE_NOSUPP, Status::ValidateTransitType))
    } else if appends_realm(subject, req) && appended is Err {
        Some(refusal(ILL_CR_TKT, Status::AddToTransitedList))
    } else if policy.reject_bad_transit && !inherits_transit(req) && !transit_ok(
        subject,
        req,
        allowed,
    ) {
        Some(refusal(POLICY, Status::BadTransit))
    } else {
        None
    }
}

/// Judges the realms on the way: the transited field of the new ticket, and
/// whether it is marked as checked.
pub fn judge_transited(
    policy: &Policy,
    subject: &TgsSubject,
    req: &TgsRequest,
    appended: Result<TransitedEncoding, ()>,
    allowed: bool,
) -> (r: Result<(TransitedEncoding, bool), Error>)
    ensures
        match spec_transit_refusal(*policy, *subject, *req, appended, allowed) {
            Some(e) => r == Err::<(TransitedEncoding, bool), Error>(e),
            None => r matches Ok(t) && t.1 == transit_ok(*subject, *req, allowed) && (
            if appends_realm(*subject, *req) {
                t.0 == appended->Ok_0
            } else {
                t.0.tr_type == req.enc_tkt.transited.tr_type && t.0.contents@
                    == req.enc_tkt.transited.contents@
            }),
        },
{
    let client_realm: &str = if subject.s4u2self || subject.s4u2proxy {
        subject.crealm.as_str()
    } else {
        req.enc_tkt.crealm.as_str()
    };
    let appends: bool = subject.is_crossrealm && !str_eq(req.header_realm, client_realm);
    let transited = if appends {
        if req.enc_tkt.transited.tr_type != 1 {
            return Err(proto(TRTYPE_NOSUPP, Status::ValidateTransitType));
        }
        match appended {
            Ok(t) => t,
            Err(_) => {
                return Err(proto(ILL_CR_TKT, Status::AddToTransitedList));
            },
        }
    } else {
        TransitedEncoding {
            tr_type: req.enc_tkt.transited.tr_type,
            contents: crate::bytes::copy(req.enc_tkt.transited.contents.as_slice()),
        }
    };
    let o = req.body.kdc_options;
    let ok: bool = !o.bit(DISABLE_TRANSITED_CHECK) && (str_eq(client_realm, ANONYMOUS_REALM)
        || allowed);
    let inherited: bool = (o.bit(RENEW) || o.bit(VALIDATE)) && req.enc_tkt.flags.bit(
        TRANSITED_POLICY_CHECKED,
    );
    if !(inherited || ok) && policy.reject_bad_transit {
        return Err(proto(POLICY, Status::BadTransit));
    }
    Ok((transited, ok))
}

/// A TGS ticket is marked as checked only where the check was made and
/// passed, and where the realm refuses bad paths no other ticket is issued
/// but a renewed or validated one that was marked before.
pub proof fn law_unchecked_transit_is_refused(
    policy: Policy,
    subject: TgsSubject,
    req: TgsRequest,
    appended: Result<TransitedEncoding, ()>,
    allowed: bool,
)
    requires
        policy.reject_bad_transit,
        spec_transit_refusal(policy, subject, req, appended, allowed) is None,
    ensures
        transit_ok(subject, req, allowed) || inherits_transit(req),
{
}

/// What the second ticket of a user-to-user request says of the session key:
/// its type must be known, and is taken where the client asked for it.
pub open spec fn u2u_offers(policy: Policy, body: KdcReqBody, st: SecondTicket) -> Result<
    Option<i32>,
    Error,
> {
    if !policy.knows(st.part.key.keytype) {
        Err(refusal(ETYPE_NOSUPP, Status::BadEtypeIn2ndTkt))
    } else if body.etype@.contains(st.part.key.keytype) {
        Ok(Some(st.part.key.keytype))
    } else {
        Ok(None)
    }
}

/// What the second ticket of a user-to-user request says of the session key.
pub fn get_2ndtkt_enctype(policy: &Policy, body: &KdcReqBody, st: &SecondTicket) -> (r: Result<
    Option<i32>,
    Error,
>)
    ensures
        r == u2u_offers(*policy, *body, *st),
{
    let n: i32 = st.part.key.keytype;
    if !policy.etype_known(n) {
        return Err(proto(ETYPE_NOSUPP, Status::BadEtypeIn2ndTkt));
    }
    if contains_i32(body.etype.as_slice(), n) {
        Ok(Some(n))
    } else {
        Ok(None)
    }
}

/// The policy of a TGS request before keys and realms, in the order in which
/// it is judged. `at` is the place of the server's list of indicators.
pub open spec fn policy_refusal(
    policy: Policy,
    realm: Seq<char>,
    subject: TgsSubject,
    req: TgsRequest,
    facts: PolicyFacts,
    local_tgt_key: bool,
    at: int,
    now: u32,
) -> Option<Error> {
    let flags = spec_policy_flags(
        *req.server,
        req.body.kdc_options,
        facts.header_is_tgt,
        req.enc_tkt.flags,
        now,
    );
    if flags is Err {
        Some(flags->Err_0)
    } else if !local_tgt_key {
        Some(refusal(GENERIC, Status::GetLocalTgt))
    } else if !subject.s4u2self && facts.indicators is Err {
        Some(facts.indicators->Err_0)
    } else if !subject.s4u2self && spec_check_indicators(
        *req.server,
        facts.indicators->Ok_0@,
        at,
    ) is Err {
        Some(refusal(POLICY, Status::HigherAuthenticationRequired))
    } else if subject.s4u2proxy && subject.stkt is None {
        Some(refusal(GENERIC, Status::UnknownReason))
    } else {
        let proxy = if subject.s4u2proxy {
            spec_s4u2proxy_policy(
                facts.pac_options,
                req.sname@.joined(),
                req.enc_tkt.cname@.joined(),
                subject.stkt->0.server,
                *req.server,
                subject.is_crossrealm,
                subject.is_referral,
            )
        } else {
            Ok(())
        };
        if proxy is Err {
            Some(proxy->Err_0)
        } else {
            match spec_check_anon(policy, realm, req.enc_tkt.cname@, req.server.name@) {
                Err(e) => Some(e),
                Ok(()) => None,
            }
        }
    }
}

/// Judges the policy of a TGS request and hands back the indicators of the
/// new ticket.
pub fn check_tgs_policy(
    policy: &Policy,
    realm: &str,
    subject: &TgsSubject,
    req: &TgsRequest,
    header_is_tgt: bool,
    indicators: Result<Vec<String>, Error>,
    pac_options: &Option<Result<bool, ()>>,
    local_tgt_key: bool,
    now: u32,
) -> (r: Result<Vec<String>, Error>)
    ensures
        exists|at: int| #[trigger]
            is_first_attr(req.server.string_attrs@, REQUIRE_AUTH@, at) && (match policy_refusal(
                *policy,
                realm@,
                *subject,
                *req,
                PolicyFacts {
                    header_is_tgt,
                    indicators,
                    pac_options: *pac_options,
                    session_enctypes: None,
                    u2u_key: Ok(()),
                },
                local_tgt_key,
                at,
                now,
            ) {
                Some(e) => r == Err::<Vec<String>, Error>(e),
                None => r matches Ok(v) && (if subject.s4u2self {
                    v@.len() == 0
                } else {
                    v == indicators->Ok_0
                }),
            }),
{
    let at = crate::store::find_attr(req.server.string_attrs.as_slice(), REQUIRE_AUTH);
    proof {
        assert(is_first_attr(req.server.string_attrs@, REQUIRE_AUTH@, at as int));
    }
    match check_tgs_policy_flags(req.server, req.body, header_is_tgt, req.enc_tkt, now) {
        Err(e) => {
            return Err(e);
        },
        Ok(()) => {},
    }
    if !local_tgt_key {
        return Err(proto(GENERIC, Status::GetLocalTgt));
    }
    let mut out: Vec<String> = Vec::new();
    if !subject.s4u2self {
        match indicators {
            Err(e) => {
                return Err(e);
            },
            Ok(v) => {
                match check_indicators(req.server, v.as_slice()) {
                    Err(e) => {
                        proof {
                            lemma_first_attr_unique(*req.server, at as int);
                        }
                        return Err(e);
                    },
                    Ok(()) => {
                        proof {
                            lemma_first_attr_unique(*req.server, at as int);
                        }
                    },
                }
                out = v;
            },
        }
    }
    if subject.s4u2proxy {
        match &subject.stkt {
            None => {
                return Err(proto(GENERIC, Status::UnknownReason));
            },
            Some(st) => match check_s4u2proxy_policy(
                pac_options,
                req.sname,
                &req.enc_tkt.cname,
                &st.server,
                req.server,
                subject.is_crossrealm,
                subject.is_referral,
            ) {
                Err(e) => {
                    return Err(e);
                },
                Ok(()) => {},
            },
        }
    }
    match check_anon(policy, realm, &req.enc_tkt.cname, &req.server.name) {
        Err(e) => {
            return Err(e);
        },
        Ok(()) => {},
    }
    Ok(out)
}

/// The first attribute of a name stands in one place.
pub proof fn lemma_first_attr_unique(server: Principal, at: int)
    requires
        is_first_attr(server.string_attrs@, REQUIRE_AUTH@, at),
    ensures
        forall|x: int| #[trigger]
            is_first_attr(server.string_attrs@, REQUIRE_AUTH@, x) ==> x == at,
{
    assert forall|x: int| #[trigger]
        is_first_attr(server.string_attrs@, REQUIRE_AUTH@, x) implies x == at by {
        if x < at {
            assert(server.string_attrs@[x].0@ != REQUIRE_AUTH@);
        }
        if at < x {
            assert(server.string_attrs@[at].0@ != REQUIRE_AUTH@);
        }
    }
}

/// The keys of the new ticket: types of session key and ticket key, and the
/// ticket key.
#[derive(Clone, Copy, Debug, PartialEq, Eq, Structural)]
pub struct TicketKeys {
    /// Type of the session key.
    pub session_etype: i32,
    /// Key of the new ticket.
    pub ticket_key: TicketKey,
    /// Version of that key (0: none is given).
    pub ticket_kvno: u32,
    /// Type of that key.
    pub ticket_etype: i32,
}

/// The ticket key is the first permitted current key of the server.
pub open spec fn server_ticket_key(policy: Policy, server: Principal, k: TicketKeys) -> bool {
    k.ticket_key matches TicketKey::ServerKey(i) && policy.finds_enctype(server, None, 0, Some(i))
        && k.ticket_kvno == server.keys@[i as int].kvno && k.ticket_etype
        == server.keys@[i as int].etype
}

/// The key that the new ticket is under is there.
pub open spec fn ticket_key_is_there(
    server: Principal,
    stkt: Option<SecondTicket>,
    k: TicketKeys,
) -> bool {
    match k.ticket_key {
        TicketKey::SecondTicketSession => stkt is Some,
        TicketKey::ServerKey(i) => i < server.keys@.len(),
    }
}

/// The key that the new ticket is under: the one of the server's that was chosen, or
/// the session key of the second ticket.
pub open spec fn ticket_key_octets(
    server: Principal,
    stkt: Option<SecondTicket>,
    k: TicketKeys,
) -> (i32, Seq<u8>) {
    match k.ticket_key {
        TicketKey::SecondTicketSession => key_octets(stkt->0.part.key),
        TicketKey::ServerKey(i) => server.keys@[i as int].octets(),
    }
}

/// The key that the new ticket is under.
pub fn ticket_key(server: &Principal, stkt: &Option<SecondTicket>, k: TicketKeys) -> (r: Option<
    EncryptionKey,
>)
    requires
        ticket_key_is_there(*server, *stkt, k),
    ensures
        r matches Some(x) && key_octets(x) == ticket_key_octets(*server, *stkt, k),
{
    match k.ticket_key {
        TicketKey::SecondTicketSession => match stkt {
            Some(st) => Some(st.part.key.copy()),
            None => None,
        },
        TicketKey::ServerKey(i) => Some(server.keys[i].to_key()),
    }
}

/// What comes of choosing the keys of the new ticket.
pub open spec fn tgs_keys_result(
    policy: Policy,
    body: KdcReqBody,
    server: Principal,
    stkt: Option<SecondTicket>,
    session_enctypes: Option<&[i32]>,
    u2u_key: Result<(), Error>,
    r: Result<TicketKeys, Error>,
) -> bool {
    let u2u = body.kdc_options.has(ENC_TKT_IN_SKEY as int);
    let offers = u2u_offers(policy, body, stkt->0);
    if u2u && stkt is None {
        r == Err::<TicketKeys, Error>(refusal(BADOPTION, Status::No2ndTkt))
    } else if u2u && offers is Err {
        r == Err::<TicketKeys, Error>(offers->Err_0)
    } else if u2u && u2u_key is Err {
        r == Err::<TicketKeys, Error>(u2u_key->Err_0)
    } else if u2u && offers->Ok_0 is Some {
        r == Ok::<TicketKeys, Error>(
            TicketKeys {
                session_etype: offers->Ok_0->0,
                ticket_key: TicketKey::SecondTicketSession,
                ticket_kvno: 0,
                ticket_etype: stkt->0.part.key.keytype,
            },
        )
    } else {
        match r {
            Ok(k) => {
                &&& first_session_enctype(
                    policy,
                    server,
                    i32_slice(session_enctypes),
                    body.etype@,
                    k.session_etype,
                )
                &&& if u2u {
                    k.ticket_key == TicketKey::SecondTicketSession && k.ticket_kvno == 0
                        && k.ticket_etype == stkt->0.part.key.keytype
                } else {
                    server_ticket_key(policy, server, k)
                }
            },
            Err(e) => {
                let no_session = forall|i: int|
                    0 <= i < body.etype@.len() ==> !session_enctype_ok(
                        policy,
                        server,
                        i32_slice(session_enctypes),
                        #[trigger] body.etype@[i],
                    );
                if no_session {
                    e == refusal(ETYPE_NOSUPP, Status::BadEncryptionType)
                } else {
                    !u2u && policy.finds_enctype(server, None, 0, None) && e == refusal(
                        GENERIC,
                        Status::FindingServerKey,
                    )
                }
            },
        }
    }
}

/// Chooses the keys of the new ticket. A user-to-user ticket is under the
/// second ticket's session key, of whose type the session key is too where
/// the client asked for that type; every other ticket is under the server's
/// first permitted current key.
pub fn choose_tgs_keys(
    policy: &Policy,
    body: &KdcReqBody,
    server: &Principal,
    stkt: &Option<SecondTicket>,
    session_enctypes: Option<&[i32]>,
    u2u_key: Result<(), Error>,
) -> (r: Result<TicketKeys, Error>)
    ensures
        tgs_keys_result(*policy, *body, *server, *stkt, session_enctypes, u2u_key, r),
{
    let u2u: bool = body.kdc_options.bit(ENC_TKT_IN_SKEY);
    let mut second_etype: i32 = 0;
    let mut offered: Option<i32> = None;
    if u2u {
        let st = match stkt {
            Some(st) => st,
            None => {
                return Err(proto(BADOPTION, Status::No2ndTkt));
            },
        };
        offered = match get_2ndtkt_enctype(policy, body, st) {
            Err(e) => {
                return Err(e);
            },
            Ok(v) => v,
        };
        match u2u_key {
            Err(e) => {
                return Err(e);
            },
            Ok(()) => {},
        }
        second_etype = st.part.key.keytype;
    }
    let session_etype: i32 = match offered {
        Some(e) => e,
        None => match select_session_keytype(
            policy,
            server,
            session_enctypes,
            body.etype.as_slice(),
        ) {
            Err(e) => {
                return Err(e);
            },
            Ok(e) => e,
        },
    };
    if u2u {
        return Ok(
            TicketKeys {
                session_etype,
                ticket_key: TicketKey::SecondTicketSession,
                ticket_kvno: 0,
                ticket_etype: second_etype,
            },
        );
    }
    proof {
        let i = choose|i: int|
            {
                &&& 0 <= i < body.etype@.len()
                &&& #[trigger] body.etype@[i] == session_etype
                &&& session_enctype_ok(
                    *policy,
                    *server,
                    i32_slice(session_enctypes),
                    session_etype,
                )
                &&& forall|j: int|
                    0 <= j < i ==> !session_enctype_ok(
                        *policy,
                        *server,
                        i32_slice(session_enctypes),
                        #[trigger] body.etype@[j],
                    )
            };
        assert(session_enctype_ok(
            *policy,
            *server,
            i32_slice(session_enctypes),
            body.etype@[i],
        ));
    }
    match policy.first_current_key(server) {
        None => Err(proto(GENERIC, Status::FindingServerKey)),
        Some(i) => Ok(
            TicketKeys {
                session_etype,
                ticket_key: TicketKey::ServerKey(i),
                ticket_kvno: server.keys[i].kvno,
                ticket_etype: server.keys[i].etype,
            },
        ),
    }
}

/// Times and flags of a ticket.
#[derive(Clone, Copy, Debug, PartialEq, Eq, Structural)]
pub struct TicketTimes {
    /// Time of initial authentication.
    pub authtime: u32,
    /// Start.
    pub starttime: u32,
    /// End.
    pub endtime: u32,
    /// Renewal end.
    pub renew_till: Option<u32>,
    /// Flags.
    pub flags: Flags,
}

/// When a ticket starts: as asked for where it is postdated (at time 0 where
/// that is left open), else now.
pub open spec fn spec_start(body: KdcReqBody, now: u32) -> u32 {
    if body.kdc_options.has(POSTDATED as int) {
        match body.from {
            Some(t) => t,
            None => 0,
        }
    } else {
        now
    }
}

/// When a ticket starts.
pub fn requested_start(body: &KdcReqBody, now: u32) -> (r: u32)
    ensures
        r == spec_start(*body, now),
{
    if body.kdc_options.bit(POSTDATED) {
        match body.from {
            Some(t) => t,
            None => 0,
        }
    } else {
        now
    }
}

/// When a renewed ticket ends: as long after its start as the old ticket
/// lived, and not behind its renewal end.
pub open spec fn renewed_end(tkt: EncTicketPart, start: u32) -> u32 {
    let end = match spec_add_seconds(start, interval(tkt.start(), tkt.endtime)) {
        Some(t) => t,
        None => start,
    };
    match tkt.renew_till {
        Some(t) => min_u32(t, end),
        None => end,
    }
}

/// The times of a TGS ticket, or the refusal. A renewed ticket keeps its
/// time of authentication and its length, a validated one all its times.
pub open spec fn spec_tgs_times(
    policy: Policy,
    body: KdcReqBody,
    tkt: EncTicketPart,
    client: Option<&Principal>,
    server: Principal,
    subject_authtime: u32,
    now: u32,
) -> Result<(u32, u32, u32, Option<u32>), Error> {
    let start = spec_start(body, now);
    if body.kdc_options.has(RENEW as int) {
        if !tkt.flags.has(RENEWABLE as int) {
            Err(refusal(BADOPTION, Status::TicketNotRenewable))
        } else {
            let end = renewed_end(tkt, start);
            Ok(
                (
                    tkt.authtime,
                    start,
                    end,
                    spec_renewtime(&policy, &body, Some(&tkt), client, &server, start, end),
                ),
            )
        }
    } else if body.kdc_options.has(VALIDATE as int) {
        Ok((tkt.authtime, tkt.start(), tkt.endtime, tkt.renew_till))
    } else {
        match spec_ticket_endtime(&policy, start, Some(tkt.endtime), body.till, client, &server) {
            Err(e) => Err(e),
            Ok(end) => Ok(
                (
                    subject_authtime,
                    start,
                    end,
                    spec_renewtime(&policy, &body, Some(&tkt), client, &server, start, end),
                ),
            ),
        }
    }
}

/// Whether bit `i` is set in the flags of a TGS ticket.
pub open spec fn tgs_flag(
    i: int,
    body: KdcReqBody,
    tkt: EncTicketPart,
    client: Option<&Principal>,
    server: Principal,
    renew_till: Option<u32>,
    set_transited: bool,
    on_behalf: bool,
) -> bool {
    let base = ticket_flag(i, body.kdc_options, client, &server, Some(tkt.flags));
    if i == RENEWABLE && (body.kdc_options.has(RENEW as int) || !body.kdc_options.has(
        VALIDATE as int,
    )) {
        renew_till is Some
    } else if i == TRANSITED_POLICY_CHECKED {
        base || set_transited
    } else if i == FORWARDABLE {
        base && (on_behalf ==> keeps_forwardable(&server))
    } else {
        base
    }
}

/// What setting times and flags of a TGS ticket comes to.
pub open spec fn tgs_times_result(
    policy: Policy,
    body: KdcReqBody,
    tkt: EncTicketPart,
    client: Option<&Principal>,
    server: Principal,
    subject_authtime: u32,
    set_transited: bool,
    on_behalf: bool,
    verdict: Result<(), Error>,
    now: u32,
    r: Result<TicketTimes, Error>,
) -> bool {
    match spec_tgs_times(policy, body, tkt, client, server, subject_authtime, now) {
        Err(e) => r == Err::<TicketTimes, Error>(e),
        Ok((auth, start, end, renew)) => match verdict {
            Err(e) => r == Err::<TicketTimes, Error>(e),
            Ok(()) => r matches Ok(t) && {
                &&& t.authtime == auth
                &&& t.starttime == start
                &&& t.endtime == end
                &&& t.renew_till == renew
                &&& forall|i: int| #[trigger]
                    t.flags.has(i) == tgs_flag(
                        i,
                        body,
                        tkt,
                        client,
                        server,
                        renew,
                        set_transited,
                        on_behalf,
                    )
            },
        },
    }
}

/// Sets times and flags of a TGS ticket. `client` is the entry of the
/// subject, where policy applies to it; `on_behalf` says that the ticket is
/// the final one of a request on behalf of another user; `verdict` is the
/// policy module's.
pub fn tgs_flags_times_policy(
    policy: &Policy,
    body: &KdcReqBody,
    tkt: &EncTicketPart,
    client: Option<&Principal>,
    server: &Principal,
    subject_authtime: u32,
    set_transited: bool,
    on_behalf: bool,
    verdict: Result<(), Error>,
    now: u32,
) -> (r: Result<TicketTimes, Error>)
    ensures
        tgs_times_result(
            *policy,
            *body,
            *tkt,
            client,
            *server,
            subject_authtime,
            set_transited,
            on_behalf,
            verdict,
            now,
            r,
        ),
{
    let o = body.kdc_options;
    let authtime: u32;
    let starttime: u32;
    let end: u32;
    let mut flags: Flags;
    let renew_till: Option<u32>;
    if o.bit(RENEW) {
        if !tkt.flags.bit(RENEWABLE) {
            return Err(proto(BADOPTION, Status::TicketNotRenewable));
        }
        authtime = tkt.authtime;
        starttime = requested_start(body, now);
        let hlife: i64 = signed_interval(tkt.start_time(), tkt.endtime);
        let by_life: u32 = match add_seconds(starttime, hlife) {
            Some(t) => t,
            None => starttime,
        };
        end = match tkt.renew_till {
            Some(till) => if till < by_life {
                till
            } else {
                by_life
            },
            None => by_life,
        };
        flags = get_ticket_flags(o, client, server, Some(tkt.flags));
        renew_till = kdc_get_ticket_renewtime(
            policy,
            body,
            Some(tkt),
            client,
            server,
            &mut flags,
            starttime,
            end,
        );
    } else if o.bit(VALIDATE) {
        authtime = tkt.authtime;
        starttime = tkt.start_time();
        end = tkt.endtime;
        renew_till = tkt.renew_till;
        flags = get_ticket_flags(o, client, server, Some(tkt.flags));
    } else {
        authtime = subject_authtime;
        starttime = requested_start(body, now);
        end = match kdc_get_ticket_endtime(
            policy,
            starttime,
            Some(tkt.endtime),
            body.till,
            client,
            server,
        ) {
            Err(e) => {
                return Err(e);
            },
            Ok(t) => t,
        };
        flags = get_ticket_flags(o, client, server, Some(tkt.flags));
        renew_till = kdc_get_ticket_renewtime(
            policy,
            body,
            Some(tkt),
            client,
            server,
            &mut flags,
            starttime,
            end,
        );
    }
    if set_transited {
        flags = flags.with_bit(TRANSITED_POLICY_CHECKED, true);
    }
    if on_behalf {
        flags = s4u2self_forwardable(server, flags);
    }
    match verdict {
        Err(e) => Err(e),
        Ok(()) => Ok(TicketTimes { authtime, starttime, endtime: end, renew_till, flags }),
    }
}

/// Renewal never carries a ticket past its renewal end, and keeps its time
/// of initial authentication.
pub proof fn law_renewal_keeps_within_renew_till(
    policy: Policy,
    body: KdcReqBody,
    tkt: EncTicketPart,
    client: Option<&Principal>,
    server: Principal,
    subject_authtime: u32,
    now: u32,
)
    requires
        body.kdc_options.has(RENEW as int),
    ensures
        spec_tgs_times(policy, body, tkt, client, server, subject_authtime, now) matches Ok(
            t,
        ) ==> {
            &&& t.0 == tkt.authtime
            &&& (tkt.renew_till matches Some(till) ==> t.2 <= till)
        },
{
}

/// Validating a ticket clears INVALID and changes nothing else but the mark
/// of the transit check, and FORWARDABLE where it is got on behalf of
/// another user.
pub proof fn law_validation_clears_invalid_only(
    body: KdcReqBody,
    tkt: EncTicketPart,
    client: Option<&Principal>,
    server: Principal,
    set_transited: bool,
    i: int,
)
    requires
        body.kdc_options.has(VALIDATE as int),
        !body.kdc_options.has(RENEW as int),
        i != TRANSITED_POLICY_CHECKED,
    ensures
        tgs_flag(i, body, tkt, client, server, tkt.renew_till, set_transited, false) == (i
            != crate::flags::INVALID && tkt.flags.has(i)),
{
}

/// The entry that policy applies to as the client of a TGS ticket: the local
/// user acted for; else the subject's own, where it is local and the server
/// takes authorization data.
pub open spec fn tgs_client_lookup<S: PrincipalRead>(
    store: &S,
    subject: TgsSubject,
    tkt: EncTicketPart,
    server: Principal,
) -> Result<Option<Principal>, Error> {
    let cname = match subject.stkt {
        Some(st) => st.part.cname@,
        None => tkt.cname@,
    };
    let crealm = match subject.stkt {
        Some(st) => st.part.crealm@,
        None => tkt.crealm@,
    };
    if subject.s4u2self {
        Ok(subject.s4u_local)
    } else if attr_set(server.attributes, KDB_NO_AUTH_DATA_REQUIRED) || crealm
        != store.realm_view() {
        Ok(None)
    } else {
        name_lookup(store, cname)
    }
}

/// Finds the entry that policy applies to as the client of a TGS ticket.
pub fn tgs_client<'a, S: PrincipalRead>(
    store: &'a S,
    subject: &'a TgsSubject,
    tkt: &EncTicketPart,
    server: &Principal,
) -> (r: Result<Option<&'a Principal>, Error>)
    ensures
        fetched(r) == tgs_client_lookup(store, *subject, *tkt, *server),
{
    if subject.s4u2self {
        return Ok(subject.s4u_local.as_ref());
    }
    if attr(server, KDB_NO_AUTH_DATA_REQUIRED) {
        return Ok(None);
    }
    let (cname, crealm): (&PrincipalName, &String) = match &subject.stkt {
        Some(st) => (&st.part.cname, &st.part.crealm),
        None => (&tkt.cname, &tkt.crealm),
    };
    if str_eq(crealm.as_str(), store.realm()) {
        store.fetch_name(cname)
    } else {
        Ok(None)
    }
}

/// The local ticket-granting service has a key.
pub open spec fn local_tgt_usable(policy: Policy, local_tgt: Option<&Principal>) -> bool {
    local_tgt matches Some(t) && !policy.finds_enctype(*t, None, 0, None)
}

/// What checking a judged request brings: its policy, then its keys, then the
/// realms on the way. `at` is the place of the server's list of indicators.
pub open spec fn tgs_check_result<
    A: Fn(&TransitedEncoding, &str, &str, &str) -> Result<TransitedEncoding, ()>,
    W: Fn(&TransitedEncoding, &str, &str) -> bool,
>(
    policy: Policy,
    realm: Seq<char>,
    subject: TgsSubject,
    req: TgsRequest,
    facts: PolicyFacts,
    local_tgt: Option<&Principal>,
    at: int,
    now: u32,
    append: A,
    allow: W,
    r: Result<(TgsSubject, TgsChecked), Error>,
) -> bool {
    match policy_refusal(
        policy,
        realm,
        subject,
        req,
        facts,
        local_tgt_usable(policy, local_tgt),
        at,
        now,
    ) {
        Some(e) => r == Err::<(TgsSubject, TgsChecked), Error>(e),
        None => exists|k: Result<TicketKeys, Error>| #[trigger]
            tgs_keys_result(
                policy,
                *req.body,
                *req.server,
                subject.stkt,
                facts.session_enctypes,
                facts.u2u_key,
                k,
            ) && match k {
                Err(e) => r == Err::<(TgsSubject, TgsChecked), Error>(e),
                Ok(keys) => exists|
                    appended: Result<TransitedEncoding, ()>,
                    allowed: bool,
                |
                    {
                        &&& #[trigger] transit_facts(
                            subject,
                            req,
                            append,
                            allow,
                            appended,
                            allowed,
                        )
                        &&& tgs_transit_result(
                            policy,
                            subject,
                            req,
                            facts,
                            keys,
                            appended,
                            allowed,
                            r,
                        )
                    },
            },
    }
}

/// What checking a judged request brings whose keys were chosen.
pub open spec fn tgs_transit_result(
    policy: Policy,
    subject: TgsSubject,
    req: TgsRequest,
    facts: PolicyFacts,
    keys: TicketKeys,
    appended: Result<TransitedEncoding, ()>,
    allowed: bool,
    r: Result<(TgsSubject, TgsChecked), Error>,
) -> bool {
    match spec_transit_refusal(policy, subject, req, appended, allowed) {
        Some(e) => r == Err::<(TgsSubject, TgsChecked), Error>(e),
        None => r matches Ok(ok) && {
            &&& ok.0 == subject
            &&& ok.1.keys == keys
            &&& ok.1.set_transited_flag == transit_ok(subject, req, allowed)
            &&& if subject.s4u2self {
                ok.1.indicators@.len() == 0
            } else {
                ok.1.indicators == facts.indicators->Ok_0
            }
            &&& if appends_realm(subject, req) {
                ok.1.transited == appended->Ok_0
            } else {
                ok.1.transited.tr_type == req.enc_tkt.transited.tr_type
                    && ok.1.transited.contents@ == req.enc_tkt.transited.contents@
            }
        },
    }
}

/// `s` is the subject that judging a request gave, and `at` the place of the
/// server's list of indicators.
pub open spec fn judged_subject(
    s: TgsSubject,
    v: SubjectView,
    out: TgsOutside,
    logon: Option<Vec<u8>>,
    server: Principal,
    at: int,
) -> bool {
    &&& s@ == v
    &&& s.logon == logon
    &&& out.stkt == Ok::<Option<SecondTicket>, Error>(s.stkt)
    &&& s.s4u_local == (match out.s4u->Ok_0 {
        Some(u) => u.local,
        None => None,
    })
    &&& s.s4u_x509 == (match out.s4u->Ok_0 {
        Some(u) => u.x509,
        None => None,
    })
    &&& is_first_attr(server.string_attrs@, REQUIRE_AUTH@, at)
}

/// What checking a TGS request comes to whose logon information was judged.
pub open spec fn tgs_judged_result<
    S: PrincipalRead,
    A: Fn(&TransitedEncoding, &str, &str, &str) -> Result<TransitedEncoding, ()>,
    W: Fn(&TransitedEncoding, &str, &str) -> bool,
    G: Fn(&EncTicketPart, &Principal, &EncryptionKey) -> Result<Vec<String>, Error>,
>(
    store: &S,
    req: TgsRequest,
    out: TgsOutside,
    logon: Result<Option<Vec<u8>>, Error>,
    facts: TgsFacts,
    local_tgt: Option<&Principal>,
    now: u32,
    append: A,
    allow: W,
    get: G,
    r: Result<(TgsSubject, TgsChecked), Error>,
) -> bool {
    match spec_judge_subject(store, req, out, logon, now) {
        Err(e) => r == Err::<(TgsSubject, TgsChecked), Error>(e),
        Ok(v) => exists|s: TgsSubject, at: int, d: Result<Vec<String>, Error>|
            {
                &&& #[trigger] judged_subject(s, v, out, logon_kept(logon), *req.server, at)
                &&& #[trigger] indicators_read(store.policy_view(), s, req, local_tgt, get, d)
                &&& tgs_check_result(
                    store.policy_view(),
                    store.realm_view(),
                    s,
                    req,
                    policy_facts(facts, req, d),
                    local_tgt,
                    at,
                    now,
                    append,
                    allow,
                    r,
                )
            },
    }
}

/// What checking a TGS request comes to.
pub open spec fn tgs_req_result<
    S: PrincipalRead,
    R: Fn(&Vec<u8>) -> Result<LogonSids, String>,
    N: Fn(&Vec<u8>, &LogonSids) -> Vec<u8>,
    A: Fn(&TransitedEncoding, &str, &str, &str) -> Result<TransitedEncoding, ()>,
    W: Fn(&TransitedEncoding, &str, &str) -> bool,
    G: Fn(&EncTicketPart, &Principal, &EncryptionKey) -> Result<Vec<String>, Error>,
>(
    store: &S,
    req: TgsRequest,
    out: TgsOutside,
    facts: TgsFacts,
    local_tgt: Option<&Principal>,
    now: u32,
    read: R,
    write: N,
    append: A,
    allow: W,
    get: G,
    r: Result<(TgsSubject, TgsChecked), Error>,
) -> bool {
    exists|l: Result<Option<Vec<u8>>, Error>|
        {
            &&& #[trigger] logon_stage(req, store.realm_view(), out, read, write, l)
            &&& tgs_judged_result(
                store,
                req,
                out,
                l,
                facts,
                local_tgt,
                now,
                append,
                allow,
                get,
                r,
            )
        }
}

/// Checks a TGS request: whom its ticket names, then policy, keys and the
/// realms on the way. `read` and `write` read logon information and write it
/// with other identifiers, `append` adds a realm to a transited field, `allow` says
/// whether the realms in one are allowed between two realms, and `get` gets the
/// authentication indicators of a ticket, given the local ticket-granting service and
/// its key.
pub fn check_tgs_req<
    S: PrincipalRead,
    R: Fn(&Vec<u8>) -> Result<LogonSids, String>,
    N: Fn(&Vec<u8>, &LogonSids) -> Vec<u8>,
    A: Fn(&TransitedEncoding, &str, &str, &str) -> Result<TransitedEncoding, ()>,
    W: Fn(&TransitedEncoding, &str, &str) -> bool,
    G: Fn(&EncTicketPart, &Principal, &EncryptionKey) -> Result<Vec<String>, Error>,
>(
    store: &S,
    req: &TgsRequest,
    out: TgsOutside,
    facts: TgsFacts,
    local_tgt: Option<&Principal>,
    now: u32,
    read: &R,
    write: &N,
    append: &A,
    allow: &W,
    get: &G,
) -> (r: Result<(TgsSubject, TgsChecked), Error>)
    requires
        forall|x: Vec<u8>| #[trigger] call_requires(*read, (&x,)),
        forall|x: Vec<u8>, l: LogonSids| #[trigger] call_requires(*write, (&x, &l)),
        forall|t: TransitedEncoding, a: &str, b: &str, c: &str| #[trigger]
            call_requires(*append, (&t, a, b, c)),
        forall|t: TransitedEncoding, a: &str, b: &str| #[trigger]
            call_requires(*allow, (&t, a, b)),
        forall|x: EncTicketPart, p: Principal, k: EncryptionKey| #[trigger]
            call_requires(*get, (&x, &p, &k)),
    ensures
        tgs_req_result(
            store,
            *req,
            out,
            facts,
            local_tgt,
            now,
            *read,
            *write,
            *append,
            *allow,
            *get,
            r,
        ),
        r matches Ok(t) ==> ticket_key_is_there(*req.server, t.0.stkt, t.1.keys),
{
    let logon = judge_logon(req, store.realm(), &out, read, write);
    assert(logon_stage(*req, store.realm_view(), out, *read, *write, logon));
    let ghost passed = logon;
    let subject = match judge_tgs_subject(store, req, out, logon, now) {
        Err(e) => {
            return Err(e);
        },
        Ok(s) => s,
    };
    let policy = store.policy();
    let (indicators, local_key): (Result<Vec<String>, Error>, bool) = read_indicators(
        policy,
        &subject,
        req,
        local_tgt,
        get,
    );
    let ghost said = indicators;
    let header_is_tgt: bool = req.header_sname.is_krbtgt();
    let TgsFacts { pac_options, session_enctypes, u2u_key } = facts;
    let policy_result = check_tgs_policy(
        policy,
        store.realm(),
        &subject,
        req,
        header_is_tgt,
        indicators,
        &pac_options,
        local_key,
        now,
    );
    proof {
        let at = choose|at: int| #[trigger]
            is_first_attr(req.server.string_attrs@, REQUIRE_AUTH@, at) && (match policy_refusal(
                *policy,
                store.realm_view(),
                subject,
                *req,
                PolicyFacts {
                    header_is_tgt,
                    indicators,
                    pac_options,
                    session_enctypes: None,
                    u2u_key: Ok(()),
                },
                local_key,
                at,
                now,
            ) {
                Some(e) => policy_result == Err::<Vec<String>, Error>(e),
                None => policy_result matches Ok(v) && (if subject.s4u2self {
                    v@.len() == 0
                } else {
                    v == indicators->Ok_0
                }),
            });
        assert(judged_subject(subject, subject@, out, logon_kept(passed), *req.server, at));
        assert(indicators_read(store.policy_view(), subject, *req, local_tgt, *get, said));
    }
    let indicators = match policy_result {
        Err(e) => {
            return Err(e);
        },
        Ok(v) => v,
    };
    let keys_result = choose_tgs_keys(
        policy,
        req.body,
        req.server,
        &subject.stkt,
        session_enctypes,
        u2u_key,
    );
    let keys = match keys_result {
        Err(e) => {
            return Err(e);
        },
        Ok(k) => k,
    };
    let (appended, allowed): (Result<TransitedEncoding, ()>, bool) = gather_transit(
        &subject,
        req,
        append,
        allow,
    );
    assert(transit_facts(subject, *req, *append, *allow, appended, allowed));
    match judge_transited(policy, &subject, req, appended, allowed) {
        Err(e) => Err(e),
        Ok((transited, set_transited_flag)) => Ok(
            (subject, TgsChecked { indicators, keys, transited, set_transited_flag }),
        ),
    }
}

/// What finding the server and the key of a second ticket brings.
pub open spec fn second_key_result<S: PrincipalRead>(
    store: &S,
    o: Flags,
    extra: Option<&Ticket>,
    r: Result<Option<(&Principal, usize)>, Error>,
) -> bool {
    if !o.has(CNAME_IN_ADDL_TKT as int) && !o.has(ENC_TKT_IN_SKEY as int) || extra is None {
        r matches Ok(None)
    } else {
        let t = *extra->0;
        let policy = store.policy_view();
        match store.lookup(spec_lookup_principal_id(t.sname@, t.realm@)) {
            Err(e) => r matches Err(x) && x == e,
            Ok(None) => r matches Err(x) && x == refusal(
                S_PRINCIPAL_UNKNOWN,
                Status::SecondTktServer,
            ),
            Ok(Some(p)) => {
                let kvno = match t.enc_part.kvno {
                    Some(v) => v,
                    None => 0,
                };
                if attr_set(p.attributes, KDB_DISALLOW_ALL_TIX) || attr_set(
                    p.attributes,
                    KDB_DISALLOW_SVR,
                ) {
                    r matches Err(x) && x == refusal(S_PRINCIPAL_UNKNOWN, Status::SecondTktServer)
                } else if !policy.knows(t.enc_part.etype) {
                    r matches Err(x) && x == refusal(GENERIC, Status::SecondTktServer)
                } else {
                    match r {
                        Ok(Some(k)) => *k.0 == p && is_server_key(
                            policy,
                            p,
                            Some(t.enc_part.etype),
                            kvno,
                            k.1 as int,
                        ),
                        Ok(None) => false,
                        Err(e) => no_server_key(policy, p, Some(t.enc_part.etype), kvno) && e
                            == refusal(GENERIC, Status::SecondTktServer),
                    }
                }
            },
        }
    }
}

/// Finds the server and the key of the second ticket, where the request uses
/// one.
pub fn second_ticket_key<'a, S: PrincipalRead>(
    store: &'a S,
    o: Flags,
    extra: Option<&Ticket>,
) -> (r: Result<Option<(&'a Principal, usize)>, Error>)
    ensures
        second_key_result(store, o, extra, r),
{
    if !o.bit(CNAME_IN_ADDL_TKT) && !o.bit(ENC_TKT_IN_SKEY) {
        return Ok(None);
    }
    let t = match extra {
        Some(t) => t,
        None => {
            return Ok(None);
        },
    };
    let id = lookup_principal_id(&t.sname, t.realm.as_str());
    let server = match store.fetch(id.as_str()) {
        Err(e) => {
            return Err(e);
        },
        Ok(None) => {
            return Err(proto(S_PRINCIPAL_UNKNOWN, Status::SecondTktServer));
        },
        Ok(Some(p)) => p,
    };
    if attr(server, KDB_DISALLOW_ALL_TIX) || attr(server, KDB_DISALLOW_SVR) {
        return Err(proto(S_PRINCIPAL_UNKNOWN, Status::SecondTktServer));
    }
    if !store.policy().etype_known(t.enc_part.etype) {
        return Err(proto(GENERIC, Status::SecondTktServer));
    }
    let kvno: u32 = match t.enc_part.kvno {
        Some(v) => v,
        None => 0,
    };
    match find_server_key(store.policy(), server, Some(t.enc_part.etype), kvno) {
        Some(i) => Ok(Some((server, i))),
        None => Err(proto(GENERIC, Status::SecondTktServer)),
    }
}

/// `p` is what a verified PAC says to decisions.
pub open spec fn pac_facts_read<F: Fn(&Vec<u8>) -> Result<PacFacts, Error>>(
    facts: F,
    pac: Option<Vec<u8>>,
    p: Option<Result<PacFacts, Error>>,
) -> bool {
    match pac {
        None => p is None,
        Some(o) => p matches Some(f) && call_ensures(facts, (&o,), f),
    }
}

/// What a second ticket comes to that was opened: the PAC of a service ticket is
/// checked with the local ticket-granting service.
pub open spec fn second_opened<
    F: Fn(&Vec<u8>) -> Result<PacFacts, Error>,
    X: Fn(&EncTicketPart) -> Option<Vec<u8>>,
    E: Fn(&EncTicketPart) -> Result<Vec<u8>, Error>,
    N: Fn(&String) -> Option<i32>,
    D: Fn(&EncryptionKey, &str, i32) -> Option<EncryptionKey>,
    Z: Fn(&Vec<u8>, &Vec<u32>) -> Result<Vec<u8>, PacFault>,
    B: Fn(&Vec<u8>, u32) -> Result<Option<Vec<u8>>, PacFault>,
    C: Fn(&EncryptionKey, u32, &Vec<u8>, i32, &Vec<u8>) -> CksumOutcome,
>(
    types: Seq<CksumType>,
    t: Ticket,
    server: Principal,
    ticket_key: EncryptionKey,
    part: EncTicketPart,
    local_tgt: Option<&Principal>,
    facts: F,
    extract: X,
    encode: E,
    named: N,
    derive: D,
    zeroed: Z,
    buffer: B,
    check: C,
    r: Result<SecondTicket, Error>,
) -> bool {
    if !t.sname@.is_krbtgt() && local_tgt is None {
        r matches Err(x) && x == refusal(GENERIC, Status::GetLocalTgt)
    } else {
        exists|v: Result<Option<Vec<u8>>, Error>|
            {
                &&& #[trigger] verified_pac_result(
                    types,
                    part,
                    ticket_key,
                    server,
                    second_tgt(t, local_tgt),
                    extract,
                    encode,
                    named,
                    derive,
                    zeroed,
                    buffer,
                    check,
                    v,
                )
                &&& match v {
                    Err(e) => r matches Err(x) && x == spec_with_status(e, Status::SecondTktPac),
                    Ok(pac) => r matches Ok(st) && st.part == part && st.server == server
                        && pac_facts_read(facts, pac, st.pac),
                }
            }
    }
}

/// The ticket-granting service that a second ticket's PAC is checked with: none for a
/// ticket of such a service.
pub open spec fn second_tgt<'a>(t: Ticket, local_tgt: Option<&'a Principal>) -> Option<
    &'a Principal,
> {
    if t.sname@.is_krbtgt() {
        None
    } else {
        local_tgt
    }
}

/// What a second ticket comes to, which is opened with a key of its server.
pub open spec fn second_result<
    O: Fn(&EncryptionKey, u32, &Vec<u8>) -> Option<EncTicketPart>,
    F: Fn(&Vec<u8>) -> Result<PacFacts, Error>,
    X: Fn(&EncTicketPart) -> Option<Vec<u8>>,
    E: Fn(&EncTicketPart) -> Result<Vec<u8>, Error>,
    N: Fn(&String) -> Option<i32>,
    D: Fn(&EncryptionKey, &str, i32) -> Option<EncryptionKey>,
    Z: Fn(&Vec<u8>, &Vec<u32>) -> Result<Vec<u8>, PacFault>,
    B: Fn(&Vec<u8>, u32) -> Result<Option<Vec<u8>>, PacFault>,
    C: Fn(&EncryptionKey, u32, &Vec<u8>, i32, &Vec<u8>) -> CksumOutcome,
>(
    types: Seq<CksumType>,
    t: Ticket,
    server: Principal,
    key: usize,
    local_tgt: Option<&Principal>,
    open: O,
    facts: F,
    extract: X,
    encode: E,
    named: N,
    derive: D,
    zeroed: Z,
    buffer: B,
    check: C,
    r: Result<SecondTicket, Error>,
) -> bool {
    exists|k: EncryptionKey, o: Option<EncTicketPart>|
        {
            &&& key_octets(k) == server.keys@[key as int].octets()
            &&& #[trigger] call_ensures(open, (&k, KU_TICKET, &t.enc_part.cipher), o)
            &&& match o {
                None => r matches Err(x) && x == refusal(BAD_INTEGRITY, Status::SecondTktDecrypt),
                Some(part) => second_opened(
                    types,
                    t,
                    server,
                    k,
                    part,
                    local_tgt,
                    facts,
                    extract,
                    encode,
                    named,
                    derive,
                    zeroed,
                    buffer,
                    check,
                    r,
                ),
            }
        }
}

/// Opens a second ticket with a key of its server and checks its PAC. `open` opens it
/// under a key and a usage, and `facts` reads what decisions need of a PAC; the others
/// serve the check of the PAC.
pub fn decrypt_2ndtkt<
    O: Fn(&EncryptionKey, u32, &Vec<u8>) -> Option<EncTicketPart>,
    F: Fn(&Vec<u8>) -> Result<PacFacts, Error>,
    X: Fn(&EncTicketPart) -> Option<Vec<u8>>,
    E: Fn(&EncTicketPart) -> Result<Vec<u8>, Error>,
    N: Fn(&String) -> Option<i32>,
    D: Fn(&EncryptionKey, &str, i32) -> Option<EncryptionKey>,
    Z: Fn(&Vec<u8>, &Vec<u32>) -> Result<Vec<u8>, PacFault>,
    B: Fn(&Vec<u8>, u32) -> Result<Option<Vec<u8>>, PacFault>,
    C: Fn(&EncryptionKey, u32, &Vec<u8>, i32, &Vec<u8>) -> CksumOutcome,
>(
    types: &[CksumType],
    t: &Ticket,
    server: Principal,
    key: usize,
    local_tgt: Option<&Principal>,
    open: &O,
    facts: &F,
    extract: &X,
    encode: &E,
    named: &N,
    derive: &D,
    zeroed: &Z,
    buffer: &B,
    check: &C,
) -> (r: Result<SecondTicket, Error>)
    requires
        key < server.keys@.len(),
        forall|k: EncryptionKey, u: u32, c: Vec<u8>| #[trigger] call_requires(*open, (&k, u, &c)),
        forall|x: Vec<u8>| #[trigger] call_requires(*facts, (&x,)),
        forall|x: EncTicketPart| #[trigger] call_requires(*extract, (&x,)),
        forall|x: EncTicketPart| #[trigger] call_requires(*encode, (&x,)),
        forall|x: String| #[trigger] call_requires(*named, (&x,)),
        forall|k: EncryptionKey, l: &str, t: i32| #[trigger] call_requires(*derive, (&k, l, t)),
        forall|p: Vec<u8>, x: Vec<u32>| #[trigger] call_requires(*zeroed, (&p, &x)),
        forall|p: Vec<u8>, k: u32| #[trigger] call_requires(*buffer, (&p, k)),
        forall|k: EncryptionKey, u: u32, x: Vec<u8>, t: i32, m: Vec<u8>| #[trigger]
            call_requires(*check, (&k, u, &x, t, &m)),
    ensures
        second_result(
            types@,
            *t,
            server,
            key,
            local_tgt,
            *open,
            *facts,
            *extract,
            *encode,
            *named,
            *derive,
            *zeroed,
            *buffer,
            *check,
            r,
        ),
{
    let k = server.keys[key].to_key();
    let o = open(&k, KU_TICKET, &t.enc_part.cipher);
    let ghost opened = o;
    assert(call_ensures(*open, (&k, KU_TICKET, &t.enc_part.cipher), opened));
    let part = match o {
        Some(p) => p,
        None => {
            return Err(proto(BAD_INTEGRITY, Status::SecondTktDecrypt));
        },
    };
    let own: bool = t.sname.is_krbtgt();
    if !own && local_tgt.is_none() {
        return Err(proto(GENERIC, Status::GetLocalTgt));
    }
    let tgt: Option<&Principal> = if own {
        None
    } else {
        local_tgt
    };
    let v = get_verified_pac(
        types,
        &part,
        &k,
        &server,
        tgt,
        extract,
        encode,
        named,
        derive,
        zeroed,
        buffer,
        check,
    );
    let ghost verdict = v;
    let ghost whole = part;
    let ghost entry = server;
    let r: Result<SecondTicket, Error> = match v {
        Err(e) => Err(with_status(e, Status::SecondTktPac)),
        Ok(pac) => {
            let p: Option<Result<PacFacts, Error>> = match pac {
                None => None,
                Some(x) => Some(facts(&x)),
            };
            assert(pac_facts_read(*facts, pac, p));
            Ok(SecondTicket { part, server, pac: p })
        },
    };
    proof {
        assert(verified_pac_result(
            types@,
            whole,
            k,
            entry,
            second_tgt(*t, local_tgt),
            *extract,
            *encode,
            *named,
            *derive,
            *zeroed,
            *buffer,
            *check,
            verdict,
        ));
        assert(second_opened(
            types@,
            *t,
            entry,
            k,
            whole,
            local_tgt,
            *facts,
            *extract,
            *encode,
            *named,
            *derive,
            *zeroed,
            *buffer,
            *check,
            r,
        ));
    }
    r
}

/// The options of a request are in order exactly where no FAST option is unknown
/// and critical, none is unsupported, and it does not ask to renew and validate at
/// once.
pub proof fn law_options_are_in_order(
    fast_options: Option<Seq<bool>>,
    o: Flags,
    unsupported_options: bool,
)
    ensures
        options_refusal(fast_options, o, unsupported_options) is None <==> {
            &&& fast_options matches Some(v) ==> !unknown_critical_option(v)
            &&& !unsupported_options
            &&& !(o.has(RENEW as int) && o.has(VALIDATE as int))
        },
{
}

/// A request that was not seen before is gathered: it needs a server and this
/// realm, and is then answered for as its header ticket's PAC is judged.
pub proof fn law_new_request_is_gathered<
    S: PrincipalRead,
    Q: Fn(&String, &String, u32, u32, &Vec<u8>) -> bool,
    P: Fn(&EncTicketPart, &EncryptionKey, &Principal, Option<&Principal>) -> Result<(), Error>,
>(
    store: &S,
    fast_options: Option<Seq<bool>>,
    body: KdcReqBody,
    unsupported_options: bool,
    h: HeaderTgt,
    sealed: Vec<u8>,
    host: HostFacts,
    hops: Seq<String>,
    seen: Q,
    verify: P,
    r: Result<&Principal, Error>,
)
    requires
        options_refusal(fast_options, body.kdc_options, unsupported_options) is None,
        forall|b: bool| #[trigger]
            authenticator_seen(store.realm_view(), h, sealed, seen, b) ==> !b,
        gather_result(
            store,
            fast_options,
            body,
            unsupported_options,
            h,
            sealed,
            host,
            hops,
            seen,
            verify,
            r,
        ),
    ensures
        body.sname is None ==> (r matches Err(x) && x == refusal(
            S_PRINCIPAL_UNKNOWN,
            Status::NullServer,
        )),
        body.sname is Some && body.realm@ != store.realm_view() ==> (r matches Err(x) && x
            == refusal(GENERIC, Status::GetLocalTgt)),
        body.sname matches Some(sname) ==> body.realm@ == store.realm_view() && r is Ok ==> found(r)
            == spec_search_sprinc(store, sname@, body.realm@, body, host, hops),
{
}

/// A request on behalf of another user goes on exactly where it is a referral, or
/// is for the entry of the presented ticket's own client, who is of this realm;
/// and the user may be acted for.
pub proof fn law_user_is_acted_for_by_the_server<S: PrincipalRead>(
    store: &S,
    req: TgsRequest,
    s4u: S4u2Self,
    header_pac: Option<Result<PacFacts, Error>>,
    header_client: Option<Principal>,
    now: u32,
)
    ensures
        ({
            let r = s4u_stage(store, req, s4u, header_pac, header_client, now);
            let v = spec_tgs_s4u2self(
                store.policy_view(),
                store.realm_view(),
                *req.body,
                s4u,
                req.header_realm@ != store.realm_view(),
                request_is_referral(req),
                *req.enc_tkt,
                header_pac,
                s4u_lockout(store, s4u),
                now,
            );
            &&& r is Ok <==> v is Ok && {
                ||| request_is_referral(req)
                ||| {
                    &&& req.enc_tkt.crealm@ == store.realm_view()
                    &&& header_client matches Some(c) && c.name@ == req.server.name@ && c.realm@
                        == req.server.realm@
                }
            }
            &&& r is Ok ==> r == v
            &&& s4u.local matches Some(p) ==> s4u_lockout(store, s4u) == store.lockout_view(p)
        }),
{
}

/// The second ticket is judged exactly where the new one is to be under its
/// session key: by its own client's entry.
pub proof fn law_second_ticket_is_judged_when_used<S: PrincipalRead>(
    store: &S,
    req: TgsRequest,
    stkt: Option<SecondTicket>,
)
    ensures
        !req.body.kdc_options.has(ENC_TKT_IN_SKEY as int) ==> u2u_stage(store, req, stkt) is Ok,
        req.body.kdc_options.has(ENC_TKT_IN_SKEY as int) && u2u_stage(store, req, stkt) is Ok ==> (
        stkt matches Some(st) && (store.lookup(
            spec_lookup_principal_id(st.part.cname@, st.part.crealm@),
        ) matches Ok(Some(c)) && c.name@ == req.server.name@ && c.realm@ == req.server.realm@)),
        stkt matches Some(st) ==> st.server.name@.components == seq!["krbtgt"@, req.server.realm@]
            && st.server.realm@ == req.server.realm@ && (store.lookup(
            spec_lookup_principal_id(st.part.cname@, st.part.crealm@),
        ) matches Ok(Some(c)) && c.name@ == req.server.name@ && c.realm@ == req.server.realm@)
            ==> u2u_stage(store, req, stkt) is Ok,
{
}

/// A delegation is for the client of the evidence ticket, or, from another realm,
/// for the one that its PAC names; and it goes on exactly where its evidence is
/// accepted.
pub proof fn law_delegation_is_for_the_evidence_client<S: PrincipalRead>(
    store: &S,
    req: TgsRequest,
    header_pac: Option<Result<PacFacts, Error>>,
    evidence_client: Seq<char>,
    target: Option<Seq<char>>,
    st: SecondTicket,
)
    ensures
        ({
            let r = proxy_stage(store, req, header_pac, evidence_client, target, Some(st));
            let cross = req.header_realm@ != req.server.realm@;
            let alias = match name_lookup(store, req.enc_tkt.cname@) {
                Ok(v) => v,
                Err(_) => None,
            };
            let e = spec_tgs_s4u2proxy(
                *req.body,
                *req.enc_tkt,
                header_pac,
                Some(st),
                alias,
                evidence_client,
                target,
                req.server.realm@,
                cross,
                request_is_referral(req),
            );
            &&& !cross ==> (r is Ok <==> e is Ok)
            &&& !cross && r is Ok ==> r->Ok_0 == (st.part.cname@, st.part.crealm@)
            &&& cross ==> (r is Ok <==> e is Ok && (st.pac matches Some(p) && rbcd_client(
                p,
            ) is Some))
            &&& cross && r is Ok ==> Some(r->Ok_0) == rbcd_client(st.pac->0)
        }),
        proxy_stage(store, req, header_pac, evidence_client, target, None) is Err,
{
}

/// An ordinary request is for the client of the presented ticket, since that
/// client's own authentication; it goes on exactly where the ticket fits the
/// request, its client can be looked up, does not come back from abroad, and has
/// a PAC that is the client's.
pub proof fn law_ordinary_request_is_the_tickets_clients<S: PrincipalRead>(
    store: &S,
    req: TgsRequest,
    out: TgsOutside,
    logon: Result<Option<Vec<u8>>, Error>,
    now: u32,
)
    requires
        out.s4u == Ok::<Option<S4u2Self>, Error>(None),
        !req.body.kdc_options.has(CNAME_IN_ADDL_TKT as int),
    ensures
        ({
            let r = spec_judge_subject(store, req, out, logon, now);
            let cross = req.header_realm@ != req.server.realm@;
            &&& r is Ok <==> {
                &&& spec_tgs_constraints(
                    req.body.kdc_options,
                    req.header_sname@,
                    req.header_realm@,
                    *req.enc_tkt,
                    req.sname@,
                    req.req_realm@,
                    now,
                ) is Ok
                &&& name_lookup(store, req.enc_tkt.cname@) is Ok
                &&& out.stkt is Ok
                &&& !(cross && req.enc_tkt.crealm@ == store.realm_view())
                &&& u2u_stage(store, req, out.stkt->Ok_0) is Ok
                &&& spec_normal_tgs_pac(
                    *req.enc_tkt,
                    out.header_client@,
                    out.header_pac,
                    *req.server,
                    cross,
                ) is Ok
                &&& logon is Ok
            }
            &&& r matches Ok(v) ==> {
                &&& v.cname == req.enc_tkt.cname@
                &&& v.crealm == req.enc_tkt.crealm@
                &&& v.authtime == req.enc_tkt.authtime
                &&& !v.s4u2self
                &&& !v.s4u2proxy
                &&& v.s4u_subject is None
                &&& v.is_crossrealm == cross
                &&& !v.restart_count
            }
        }),
{
}

/// A ticket got for another user names that user, and on its way through other
/// realms still the service that asks.
pub proof fn law_user_ticket_names_the_user<S: PrincipalRead>(
    store: &S,
    req: TgsRequest,
    out: TgsOutside,
    logon: Result<Option<Vec<u8>>, Error>,
    now: u32,
    u: S4u2Self,
)
    requires
        out.s4u == Ok::<Option<S4u2Self>, Error>(Some(u)),
        !req.body.kdc_options.has(CNAME_IN_ADDL_TKT as int),
        spec_judge_subject(store, req, out, logon, now) is Ok,
    ensures
        ({
            let v = spec_judge_subject(store, req, out, logon, now)->Ok_0;
            &&& v.s4u2self
            &&& !v.s4u2proxy
            &&& v.s4u_subject == Some((u.user@, u.realm@))
            &&& !v.is_referral ==> v.cname == u.user@ && v.crealm == u.realm@
            &&& v.is_referral ==> v.cname == req.enc_tkt.cname@ && v.crealm == req.enc_tkt.crealm@
            &&& v.authtime == req.enc_tkt.authtime
        }),
{
}

/// A delegated ticket dates from the authentication of its evidence, and names
/// the client that it is for, but on a referral the service that asks.
pub proof fn law_delegated_ticket_names_the_client<S: PrincipalRead>(
    store: &S,
    req: TgsRequest,
    out: TgsOutside,
    logon: Result<Option<Vec<u8>>, Error>,
    now: u32,
)
    requires
        out.s4u == Ok::<Option<S4u2Self>, Error>(None),
        req.body.kdc_options.has(CNAME_IN_ADDL_TKT as int),
        spec_judge_subject(store, req, out, logon, now) is Ok,
    ensures
        out.stkt matches Ok(Some(st)) && ({
            let v = spec_judge_subject(store, req, out, logon, now)->Ok_0;
            let p = proxy_stage(
                store,
                req,
                out.header_pac,
                out.evidence_client@,
                match out.target {
                    Some(t) => Some(t@),
                    None => None,
                },
                Some(st),
            );
            &&& v.s4u2proxy
            &&& v.authtime == st.part.authtime
            &&& p is Ok
            &&& v.s4u_subject == Some(p->Ok_0)
            &&& !v.is_referral ==> (v.cname, v.crealm) == p->Ok_0
            &&& v.is_referral ==> v.cname == req.enc_tkt.cname@ && v.crealm == req.enc_tkt.crealm@
        }),
{
}

/// The realms on the way are refused exactly where a realm has to be added to a
/// list of another form or cannot be, or where the realm refuses bad paths and
/// the path is neither allowed, with the check left on or the client anonymous,
/// nor was allowed before in a ticket that is renewed or validated.
pub proof fn law_path_is_judged(
    policy: Policy,
    subject: TgsSubject,
    req: TgsRequest,
    appended: Result<TransitedEncoding, ()>,
    allowed: bool,
)
    ensures
        ({
            let from = if subject.s4u2self || subject.s4u2proxy {
                subject.crealm@
            } else {
                req.enc_tkt.crealm@
            };
            let joins = subject.is_crossrealm && req.header_realm@ != from;
            &&& spec_transit_refusal(policy, subject, req, appended, allowed) is None <==> {
                &&& joins ==> req.enc_tkt.transited.tr_type == 1 && appended is Ok
                &&& policy.reject_bad_transit ==> {
                    ||| !req.body.kdc_options.has(DISABLE_TRANSITED_CHECK as int) && (allowed
                        || from == ANONYMOUS_REALM@)
                    ||| req.enc_tkt.flags.has(TRANSITED_POLICY_CHECKED as int) && (
                    req.body.kdc_options.has(RENEW as int) || req.body.kdc_options.has(
                        VALIDATE as int,
                    ))
                }
            }
            &&& transit_ok(subject, req, allowed) <==> {
                &&& !req.body.kdc_options.has(DISABLE_TRANSITED_CHECK as int)
                &&& allowed || from == ANONYMOUS_REALM@
            }
        }),
{
}

/// The policy of a request lets it through exactly where the server's entry does,
/// the local ticket-granting service has a key, the subject has an indicator that
/// the server asks for unless the request is on behalf of a user, a delegation is
/// allowed, and the client is not anonymous beyond its rights.
pub proof fn law_policy_lets_through(
    policy: Policy,
    realm: Seq<char>,
    subject: TgsSubject,
    req: TgsRequest,
    facts: PolicyFacts,
    local_tgt_key: bool,
    at: int,
    now: u32,
)
    ensures
        policy_refusal(policy, realm, subject, req, facts, local_tgt_key, at, now) is None <==> {
            &&& spec_policy_flags(
                *req.server,
                req.body.kdc_options,
                facts.header_is_tgt,
                req.enc_tkt.flags,
                now,
            ) is Ok
            &&& local_tgt_key
            &&& !subject.s4u2self ==> facts.indicators is Ok && spec_check_indicators(
                *req.server,
                facts.indicators->Ok_0@,
                at,
            ) is Ok
            &&& subject.s4u2proxy ==> (subject.stkt matches Some(st) && spec_s4u2proxy_policy(
                facts.pac_options,
                req.sname@.joined(),
                req.enc_tkt.cname@.joined(),
                st.server,
                *req.server,
                subject.is_crossrealm,
                subject.is_referral,
            ) is Ok)
            &&& spec_check_anon(policy, realm, req.enc_tkt.cname@, req.server.name@) is Ok
        },
{
}

/// A user-to-user ticket is under the session key of the second ticket, and every
/// other under a permitted key of the server of which no newer one is there.
pub proof fn law_ticket_key_is_the_receivers(
    policy: Policy,
    body: KdcReqBody,
    server: Principal,
    stkt: Option<SecondTicket>,
    session_enctypes: Option<&[i32]>,
    u2u_key: Result<(), Error>,
    r: Result<TicketKeys, Error>,
)
    requires
        tgs_keys_result(policy, body, server, stkt, session_enctypes, u2u_key, r),
        r is Ok,
    ensures
        ({
            let k = r->Ok_0;
            &&& body.etype@.contains(k.session_etype)
            &&& body.kdc_options.has(ENC_TKT_IN_SKEY as int) ==> {
                &&& stkt is Some
                &&& k.ticket_key == TicketKey::SecondTicketSession
                &&& k.ticket_kvno == 0
                &&& k.ticket_etype == stkt->0.part.key.keytype
                &&& ticket_key_octets(server, stkt, k) == (
                    stkt->0.part.key.keytype,
                    stkt->0.part.key.keyvalue@,
                )
            }
            &&& !body.kdc_options.has(ENC_TKT_IN_SKEY as int) ==> (k.ticket_key
                matches TicketKey::ServerKey(i) && {
                &&& i < server.keys@.len()
                &&& policy.permitted_enctypes@.contains(server.keys@[i as int].etype)
                &&& k.ticket_kvno == server.keys@[i as int].kvno
                &&& k.ticket_etype == server.keys@[i as int].etype
                &&& forall|j: int|
                    0 <= j < server.keys@.len() ==> (#[trigger] server.keys@[j]).kvno
                        <= k.ticket_kvno
                &&& ticket_key_octets(server, stkt, k) == (
                    server.keys@[i as int].etype,
                    server.keys@[i as int].key@,
                )
            })
        }),
{
    crate::store::lemma_max_kvno(server.keys@);
}

/// The session key of a user-to-user ticket is of the second ticket's own type
/// wherever the client asked for that; a type that is not known is refused.
pub proof fn law_second_ticket_offers_its_type(policy: Policy, body: KdcReqBody, st: SecondTicket)
    ensures
        u2u_offers(policy, body, st) is Ok <==> policy.known_enctypes@.contains(
            st.part.key.keytype,
        ),
        u2u_offers(policy, body, st) matches Ok(x) ==> (x is Some <==> body.etype@.contains(
            st.part.key.keytype,
        )),
        u2u_offers(policy, body, st) matches Ok(Some(e)) ==> e == st.part.key.keytype,
{
}

/// A postdated ticket starts when it was asked to, and every other now.
pub proof fn law_ticket_starts(body: KdcReqBody, now: u32)
    ensures
        !body.kdc_options.has(POSTDATED as int) ==> spec_start(body, now) == now,
        body.kdc_options.has(POSTDATED as int) ==> (body.from matches Some(t) ==> spec_start(
            body,
            now,
        ) == t),
{
}

/// A renewed ticket lives as long from its start as the old one did from its own,
/// cut off at the renewal end.
pub proof fn law_renewed_ticket_lives_as_long(tkt: EncTicketPart, start: u32)
    requires
        ({
            let s = match tkt.starttime {
                Some(s) => s,
                None => tkt.authtime,
            };
            &&& s <= tkt.endtime
            &&& tkt.endtime - s <= i32::MAX
            &&& start + (tkt.endtime - s) <= u32::MAX
        }),
    ensures
        ({
            let s = match tkt.starttime {
                Some(s) => s,
                None => tkt.authtime,
            };
            let e = renewed_end(tkt, start);
            &&& tkt.renew_till is None ==> e - start == tkt.endtime - s
            &&& tkt.renew_till matches Some(t) ==> {
                &&& e <= t
                &&& start + (tkt.endtime - s) <= t ==> e - start == tkt.endtime - s
                &&& start + (tkt.endtime - s) > t ==> e == t
            }
        }),
{
}

/// A derived ticket dates from its subject's authentication, starts as asked and
/// ends within the presented ticket; one that is validated keeps all its times.
pub proof fn law_derived_ticket_has_times(
    policy: Policy,
    body: KdcReqBody,
    tkt: EncTicketPart,
    client: Option<&Principal>,
    server: Principal,
    subject_authtime: u32,
    now: u32,
)
    requires
        !body.kdc_options.has(RENEW as int),
    ensures
        ({
            let r = spec_tgs_times(policy, body, tkt, client, server, subject_authtime, now);
            let s = match tkt.starttime {
                Some(s) => s,
                None => tkt.authtime,
            };
            &&& body.kdc_options.has(VALIDATE as int) ==> r == Ok::<
                (u32, u32, u32, Option<u32>),
                Error,
            >((tkt.authtime, s, tkt.endtime, tkt.renew_till))
            &&& !body.kdc_options.has(VALIDATE as int) ==> {
                let start = spec_start(body, now);
                let end = spec_ticket_endtime(
                    &policy,
                    start,
                    Some(tkt.endtime),
                    body.till,
                    client,
                    &server,
                );
                &&& r is Ok <==> end is Ok
                &&& r matches Ok(t) ==> t.0 == subject_authtime && t.1 == start && end == Ok::<
                    u32,
                    Error,
                >(t.2) && t.3 == spec_renewtime(
                    &policy,
                    &body,
                    Some(&tkt),
                    client,
                    &server,
                    start,
                    t.2,
                )
            }
        }),
{
}

/// A ticket is renewed exactly where it is renewable: from its new start, dated as
/// before.
pub proof fn law_renewable_ticket_is_renewed(
    policy: Policy,
    body: KdcReqBody,
    tkt: EncTicketPart,
    client: Option<&Principal>,
    server: Principal,
    subject_authtime: u32,
    now: u32,
)
    requires
        body.kdc_options.has(RENEW as int),
    ensures
        ({
            let r = spec_tgs_times(policy, body, tkt, client, server, subject_authtime, now);
            &&& r is Ok <==> tkt.flags.has(RENEWABLE as int)
            &&& r matches Ok(t) ==> t.0 == tkt.authtime && t.1 == spec_start(body, now) && t.2
                == renewed_end(tkt, t.1)
            &&& r matches Err(e) ==> e == refusal(BADOPTION, Status::TicketNotRenewable)
        }),
{
}

/// A derived ticket is renewable where it has a renewal end, is marked where the
/// path was checked or the mark is kept, and is forwardable where its flags say so
/// and, got for another user, the server may have it so.
pub proof fn law_derived_flags(
    body: KdcReqBody,
    tkt: EncTicketPart,
    client: Option<&Principal>,
    server: Principal,
    renew_till: Option<u32>,
    set_transited: bool,
    on_behalf: bool,
    i: int,
)
    ensures
        !body.kdc_options.has(VALIDATE as int) || body.kdc_options.has(RENEW as int) ==> (tgs_flag(
            RENEWABLE as int,
            body,
            tkt,
            client,
            server,
            renew_till,
            set_transited,
            on_behalf,
        ) <==> renew_till is Some),
        set_transited ==> tgs_flag(
            TRANSITED_POLICY_CHECKED as int,
            body,
            tkt,
            client,
            server,
            renew_till,
            set_transited,
            on_behalf,
        ),
        !set_transited && !body.kdc_options.has(RENEW as int) && !body.kdc_options.has(
            VALIDATE as int,
        ) ==> !tgs_flag(
            TRANSITED_POLICY_CHECKED as int,
            body,
            tkt,
            client,
            server,
            renew_till,
            set_transited,
            on_behalf,
        ),
        tgs_flag(
            FORWARDABLE as int,
            body,
            tkt,
            client,
            server,
            renew_till,
            set_transited,
            on_behalf,
        ) <==> {
            &&& ticket_flag(FORWARDABLE as int, body.kdc_options, client, &server, Some(tkt.flags))
            &&& on_behalf ==> server.attributes & crate::store::KDB_OK_TO_AUTH_AS_DELEGATE != 0
                || server.s4u_allowed_to@.len() == 0
        },
        i != RENEWABLE && i != TRANSITED_POLICY_CHECKED && i != FORWARDABLE ==> tgs_flag(
            i,
            body,
            tkt,
            client,
            server,
            renew_till,
            set_transited,
            on_behalf,
        ) == ticket_flag(i, body.kdc_options, client, &server, Some(tkt.flags)),
{
}

/// Policy applies to the user acted for, to the client of the second ticket where
/// there is one, and else to the presented ticket's; but to none of another realm,
/// and to none for a server without authorization data.
pub proof fn law_policy_applies_to_the_client<S: PrincipalRead>(
    store: &S,
    subject: TgsSubject,
    tkt: EncTicketPart,
    server: Principal,
)
    ensures
        ({
            let r = tgs_client_lookup(store, subject, tkt, server);
            &&& subject.s4u2self ==> r == Ok::<Option<Principal>, Error>(subject.s4u_local)
            &&& !subject.s4u2self && server.attributes & KDB_NO_AUTH_DATA_REQUIRED != 0 ==> r
                == Ok::<Option<Principal>, Error>(None)
            &&& subject.stkt matches Some(st) ==> !subject.s4u2self && server.attributes
                & KDB_NO_AUTH_DATA_REQUIRED == 0 ==> r == (if st.part.crealm@
                == store.realm_view() {
                name_lookup(store, st.part.cname@)
            } else {
                Ok(None)
            })
            &&& subject.stkt is None ==> !subject.s4u2self && server.attributes
                & KDB_NO_AUTH_DATA_REQUIRED == 0 ==> r == (if tkt.crealm@ == store.realm_view() {
                name_lookup(store, tkt.cname@)
            } else {
                Ok(None)
            })
        }),
{
}

/// A second ticket is looked at exactly where the request uses one and has one:
/// its server must be there, be a server that tickets are given for, and have a
/// usable key of the ticket's type and version.
pub proof fn law_second_ticket_is_opened<S: PrincipalRead>(
    store: &S,
    o: Flags,
    extra: Option<&Ticket>,
    r: Result<Option<(&Principal, usize)>, Error>,
)
    requires
        second_key_result(store, o, extra, r),
    ensures
        extra is None || (!o.has(CNAME_IN_ADDL_TKT as int) && !o.has(ENC_TKT_IN_SKEY as int))
            ==> (r matches Ok(None)),
        r matches Ok(Some(k)) ==> {
            &&& extra is Some
            &&& o.has(CNAME_IN_ADDL_TKT as int) || o.has(ENC_TKT_IN_SKEY as int)
            &&& k.0.attributes & KDB_DISALLOW_ALL_TIX == 0
            &&& k.0.attributes & KDB_DISALLOW_SVR == 0
            &&& k.1 < k.0.keys@.len()
            &&& k.0.keys@[k.1 as int].etype == extra->0.enc_part.etype
            &&& store.policy_view().permitted_enctypes@.contains(extra->0.enc_part.etype)
            &&& extra->0.enc_part.kvno matches Some(v) ==> v != 0 ==> k.0.keys@[k.1 as int].kvno
                == v
        },
        extra matches Some(t) ==> (o.has(CNAME_IN_ADDL_TKT as int) || o.has(
            ENC_TKT_IN_SKEY as int,
        )) && (store.lookup(spec_lookup_principal_id(t.sname@, t.realm@)) matches Ok(Some(p)) && {
            &&& p.attributes & KDB_DISALLOW_ALL_TIX == 0
            &&& p.attributes & KDB_DISALLOW_SVR == 0
            &&& store.policy_view().known_enctypes@.contains(t.enc_part.etype)
            &&& !no_server_key(
                store.policy_view(),
                p,
                Some(t.enc_part.etype),
                match t.enc_part.kvno {
                    Some(v) => v,
                    None => 0,
                },
            )
        }) ==> (r matches Ok(Some(_))),
{
}

/// Indicators are read out of the second ticket, where there is one, and else out
/// of the presented one.
pub proof fn law_indicators_are_the_evidences(st: SecondTicket, enc_tkt: EncTicketPart)
    ensures
        spec_indicator_ticket(Some(st), enc_tkt) == st.part,
        spec_indicator_ticket(None, enc_tkt) == enc_tkt,
{
}

/// The path of an anonymous client is never found allowed, and that of another is
/// asked for from the client's realm to the one of the request.
pub proof fn law_anonymous_path_is_not_allowed<W: Fn(&TransitedEncoding, &str, &str) -> bool>(
    subject: TgsSubject,
    req: TgsRequest,
    allow: W,
    t: TransitedEncoding,
    ok: bool,
)
    requires
        realms_asked(subject, req, allow, t, ok),
    ensures
        transit_client_realm(subject, *req.enc_tkt) == ANONYMOUS_REALM@ ==> !ok,
        transit_client_realm(subject, *req.enc_tkt) != ANONYMOUS_REALM@ ==> exists|c: &str|
            c@ == transit_client_realm(subject, *req.enc_tkt) && #[trigger] call_ensures(
                allow,
                (&t, c, req.req_realm),
                ok,
            ),
{
}

/// A realm is put behind the path only where one is due and the path is of the
/// one kind that can be added to; without that nothing is appended, and what
/// cannot be appended is not allowed.
pub proof fn law_other_paths_are_not_added_to<
    A: Fn(&TransitedEncoding, &str, &str, &str) -> Result<TransitedEncoding, ()>,
    W: Fn(&TransitedEncoding, &str, &str) -> bool,
>(
    subject: TgsSubject,
    req: TgsRequest,
    append: A,
    allow: W,
    appended: Result<TransitedEncoding, ()>,
    allowed: bool,
)
    requires
        transit_facts(subject, req, append, allow, appended, allowed),
    ensures
        !appends_realm(subject, req) || req.enc_tkt.transited.tr_type != 1 ==> appended is Err,
        appends_realm(subject, req) && appended is Err ==> !allowed,
{
}

/// A TGS request gets times where they can be made and the policy module does not
/// refuse, and then those times.
pub proof fn law_times_need_the_verdict(
    policy: Policy,
    body: KdcReqBody,
    tkt: EncTicketPart,
    client: Option<&Principal>,
    server: Principal,
    subject_authtime: u32,
    set_transited: bool,
    on_behalf: bool,
    verdict: Result<(), Error>,
    now: u32,
    r: Result<TicketTimes, Error>,
)
    requires
        tgs_times_result(
            policy,
            body,
            tkt,
            client,
            server,
            subject_authtime,
            set_transited,
            on_behalf,
            verdict,
            now,
            r,
        ),
    ensures
        r is Ok <==> verdict is Ok && spec_tgs_times(
            policy,
            body,
            tkt,
            client,
            server,
            subject_authtime,
            now,
        ) is Ok,
        r matches Ok(t) ==> spec_tgs_times(
            policy,
            body,
            tkt,
            client,
            server,
            subject_authtime,
            now,
        ) == Ok::<(u32, u32, u32, Option<u32>), Error>(
            (t.authtime, t.starttime, t.endtime, t.renew_till),
        ),
{
}

/// A request that the policy refuses is refused with that refusal, and one that
/// is let through keeps its subject.
pub proof fn law_refused_requests_get_no_ticket<
    A: Fn(&TransitedEncoding, &str, &str, &str) -> Result<TransitedEncoding, ()>,
    W: Fn(&TransitedEncoding, &str, &str) -> bool,
>(
    policy: Policy,
    realm: Seq<char>,
    subject: TgsSubject,
    req: TgsRequest,
    facts: PolicyFacts,
    local_tgt: Option<&Principal>,
    at: int,
    now: u32,
    append: A,
    allow: W,
    r: Result<(TgsSubject, TgsChecked), Error>,
)
    requires
        tgs_check_result(
            policy,
            realm,
            subject,
            req,
            facts,
            local_tgt,
            at,
            now,
            append,
            allow,
            r,
        ),
    ensures
        policy_refusal(
            policy,
            realm,
            subject,
            req,
            facts,
            local_tgt_usable(policy, local_tgt),
            at,
            now,
        ) matches Some(e) ==> r == Err::<(TgsSubject, TgsChecked), Error>(e),
        r matches Ok(t) ==> t.0 == subject && (subject.s4u2self ==> t.1.indicators@.len() == 0),
{
}

/// A second ticket that does not open under the key of its server is refused, and
/// so is a service ticket where the local ticket-granting service is missing.
pub proof fn law_unopened_second_ticket_is_refused<
    O: Fn(&EncryptionKey, u32, &Vec<u8>) -> Option<EncTicketPart>,
    F: Fn(&Vec<u8>) -> Result<PacFacts, Error>,
    X: Fn(&EncTicketPart) -> Option<Vec<u8>>,
    E: Fn(&EncTicketPart) -> Result<Vec<u8>, Error>,
    N: Fn(&String) -> Option<i32>,
    D: Fn(&EncryptionKey, &str, i32) -> Option<EncryptionKey>,
    Z: Fn(&Vec<u8>, &Vec<u32>) -> Result<Vec<u8>, PacFault>,
    B: Fn(&Vec<u8>, u32) -> Result<Option<Vec<u8>>, PacFault>,
    C: Fn(&EncryptionKey, u32, &Vec<u8>, i32, &Vec<u8>) -> CksumOutcome,
>(
    types: Seq<CksumType>,
    t: Ticket,
    server: Principal,
    key: usize,
    local_tgt: Option<&Principal>,
    open: O,
    facts: F,
    extract: X,
    encode: E,
    named: N,
    derive: D,
    zeroed: Z,
    buffer: B,
    check: C,
    r: Result<SecondTicket, Error>,
)
    requires
        second_result(
            types,
            t,
            server,
            key,
            local_tgt,
            open,
            facts,
            extract,
            encode,
            named,
            derive,
            zeroed,
            buffer,
            check,
            r,
        ),
    ensures
        (forall|k: EncryptionKey, o: Option<EncTicketPart>| #[trigger]
            call_ensures(open, (&k, KU_TICKET, &t.enc_part.cipher), o) ==> o is None) ==> refuses(
            r,
            BAD_INTEGRITY,
            Status::SecondTktDecrypt,
        ),
        !t.sname@.is_krbtgt() && local_tgt is None ==> r is Err,
        r matches Ok(st) ==> st.server == server,
{
}

/// A path that was added to is what goes on, and one that was not goes on as it
/// came; the flag that it was checked is set where it was found allowed.
pub proof fn law_path_goes_on(
    policy: Policy,
    subject: TgsSubject,
    req: TgsRequest,
    facts: PolicyFacts,
    keys: TicketKeys,
    appended: Result<TransitedEncoding, ()>,
    allowed: bool,
    r: Result<(TgsSubject, TgsChecked), Error>,
)
    requires
        tgs_transit_result(policy, subject, req, facts, keys, appended, allowed, r),
    ensures
        r is Ok <==> spec_transit_refusal(policy, subject, req, appended, allowed) is None,
        r matches Ok(t) ==> t.1.keys == keys && t.0 == subject,
        r matches Ok(t) ==> appends_realm(subject, req) ==> t.1.transited == appended->Ok_0,
        r matches Ok(t) ==> !appends_realm(subject, req) ==> t.1.transited.tr_type
            == req.enc_tkt.transited.tr_type && t.1.transited.contents@
            == req.enc_tkt.transited.contents@,
        r matches Ok(t) ==> t.1.set_transited_flag == transit_ok(subject, req, allowed),
{
}

} // verus!
