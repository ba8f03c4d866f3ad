//! AS requests: finding client and server, pre-authentication, and the
//! ticket that answers.

use crate::ad::{
    check_indicators, pac_privsvr_key, privsvr_result, spec_check_indicators, REQUIRE_AUTH,
};
use crate::error::{
    proto, refusal, refuses, Error, Status, BADOPTION, C_PRINCIPAL_UNKNOWN, ETYPE_NOSUPP, GENERIC,
    MORE_PREAUTH_DATA_REQUIRED, PREAUTH_EXPIRED, PREAUTH_FAILED, PREAUTH_REQUIRED, SVC_UNAVAILABLE,
    S_PRINCIPAL_UNKNOWN,
};
use crate::flags::{Flags, ANONYMOUS, CANONICALIZE, HW_AUTHENT, PRE_AUTHENT, RENEWABLE};
use crate::issue::assemble::AsSession;
use crate::issue::kdc_util::{
    check_fast_options, enctype_requires_etype_info_2, first_session_enctype, i32_slice,
    include_pac_for_reply, needs_info2, select_session_keytype, session_enctype_ok,
    spec_include_pac, unknown_critical_option,
};
use crate::issue::reply::{
    asks_enc_pa, client_of_reply, reply_client, reply_nonce, wants_enc_pa, FastFacts, PacKey,
};
use crate::issue::tgs_policy::{
    requested_server, server_terms, spec_validate_as_request, validate_as_request, Lockout,
};
use crate::issue::tgs_req::{requested_start, spec_start, TicketTimes, ANONYMOUS_REALM};
use crate::issue::times::{
    get_key_exp, get_ticket_flags, kdc_get_ticket_endtime, kdc_get_ticket_renewtime, spec_key_exp,
    spec_renewtime, spec_ticket_endtime, ticket_flag,
};
use crate::kdb::{fetched, PrincipalRead};
use crate::msg::{
    find_pa, has_pa, key_octets, EncryptionKey, KdcReqBody, PaData, PA_AS_FRESHNESS,
    PA_ENCRYPTED_CHALLENGE, PA_ETYPE_INFO, PA_ETYPE_INFO2, PA_FX_COOKIE, PA_FX_FAST, PA_PW_SALT,
};
use crate::name::{
    anonymous_view, spec_lookup_principal_id, NameView, PrincipalName, NT_ENTERPRISE,
};
use crate::store::{
    attr, attr_set, contains_string, is_first_attr, KeyEntry, Policy, Principal,
    KDB_NO_AUTH_DATA_REQUIRED, KDB_REQUIRES_HW_AUTH,
};
use crate::text::{str_eq, views};
use vstd::prelude::*;
use vstd::string::*;

verus! {

/// How a failed lookup of a client or server is answered: a locked database
/// as unavailable service, everything else as a general failure with its
/// text in the log, both under the status word `looking_up`.
pub open spec fn lookup_fault(e: Error, looking_up: Status, word: Seq<char>, r: Error) -> bool {
    r matches Error::Protocol { code, text, e_data, detail } && text == Some(looking_up)
        && e_data is None && (match e {
        Error::Protocol { code: c, detail: d, .. } => if c == SVC_UNAVAILABLE {
            code == SVC_UNAVAILABLE && detail == d
        } else {
            code == GENERIC && (detail matches Some(s) && s@ == e.spec_message(word))
        },
        _ => code == GENERIC && (detail matches Some(s) && s@ == e.spec_message(word)),
    })
}

/// Labels what a lookup of a client or server brought. `word` is the text
/// of the failure's own status word.
pub fn lookup_as_princ<'a>(
    found: Result<Option<&'a Principal>, Error>,
    looking_up: Status,
    word: &str,
) -> (r: Result<Option<&'a Principal>, Error>)
    ensures
        match found {
            Ok(p) => r == found,
            Err(e) => r matches Err(x) && lookup_fault(e, looking_up, word@, x),
        },
{
    match found {
        Ok(p) => Ok(p),
        Err(e) => {
            let text = e.message(word);
            match e {
                Error::Protocol { code, text: t, e_data: d, detail } => {
                    if code == SVC_UNAVAILABLE {
                        Err(
                            Error::Protocol {
                                code: SVC_UNAVAILABLE,
                                text: Some(looking_up),
                                e_data: None,
                                detail,
                            },
                        )
                    } else {
                        Err(
                            Error::Protocol {
                                code: GENERIC,
                                text: Some(looking_up),
                                e_data: None,
                                detail: Some(text),
                            },
                        )
                    }
                },
                _ => Err(
                    Error::Protocol {
                        code: GENERIC,
                        text: Some(looking_up),
                        e_data: None,
                        detail: Some(text),
                    },
                ),
            }
        },
    }
}

/// `e` is a type for which the client has a permitted key of its newest
/// version.
pub open spec fn has_client_key(policy: Policy, p: Principal, e: i32) -> bool {
    policy.knows(e) && !policy.finds_enctype(p, Some(e), 0, None)
}

/// Key `k` answers the first requested type for which the client has one.
pub open spec fn is_client_key(
    policy: Policy,
    p: Principal,
    requested: Seq<i32>,
    k: usize,
) -> bool {
    exists|i: int|
        {
            &&& 0 <= i < requested.len()
            &&& policy.knows(requested[i])
            &&& policy.finds_enctype(p, Some(#[trigger] requested[i]), 0, Some(k))
            &&& forall|j: int|
                0 <= j < i ==> !has_client_key(policy, p, #[trigger] requested[j])
        }
}

/// The client has no key of any requested type.
pub open spec fn no_client_key(policy: Policy, p: Principal, requested: Seq<i32>) -> bool {
    forall|j: int|
        0 <= j < requested.len() ==> !has_client_key(policy, p, #[trigger] requested[j])
}

/// Chooses the client's key: the first requested type for which it has a
/// permitted key of its newest version.
pub fn select_client_key(policy: &Policy, princ: &Principal, requested: &[i32]) -> (r: Option<
    usize,
>)
    ensures
        match r {
            Some(k) => is_client_key(*policy, *princ, requested@, k) && k < princ.keys.len(),
            None => no_client_key(*policy, *princ, requested@),
        },
{
    let mut i: usize = 0;
    while i < requested.len()
        invariant
            i <= requested.len(),
            forall|j: int| 0 <= j < i ==> !has_client_key(*policy, *princ, #[trigger] requested@[j]),
        decreases requested.len() - i,
    {
        let e: i32 = requested[i];
        if policy.etype_known(e) {
            match policy.find_enctype(princ, Some(e), 0) {
                Some(k) => {
                    proof {
                        assert(policy.finds_enctype(
                            *princ,
                            Some(requested@[i as int]),
                            0,
                            Some(k),
                        ));
                    }
                    return Some(k);
                },
                None => {},
            }
        }
        i = i + 1;
    }
    None
}

/// Client, server and keys of an AS request.
pub struct AsLookup<'a> {
    /// The client's entry.
    pub client: &'a Principal,
    /// Client of the ticket.
    pub cname: PrincipalName,
    /// Requested client.
    pub req_cname: PrincipalName,
    /// The server's entry.
    pub server: &'a Principal,
    /// Requested server.
    pub sname: PrincipalName,
    /// Type of the session key.
    pub session_etype: i32,
    /// The client's key.
    pub ckey: usize,
    /// The client's failure count starts again.
    pub restart_count: bool,
}

/// What a lookup of a name brings.
pub open spec fn princ_lookup<S: PrincipalRead>(store: &S, name: NameView) -> Result<
    Option<Principal>,
    Error,
> {
    store.lookup(spec_lookup_principal_id(name, store.realm_view()))
}

/// The client of an AS ticket: the entry's own name where the request lets
/// it be made canonical, else the name asked for.
pub open spec fn as_client_name(body: KdcReqBody, entry: NameView) -> NameView {
    if body.cname->0@.name_type == NT_ENTERPRISE || body.kdc_options.has(CANONICALIZE as int) {
        entry
    } else {
        body.cname->0@
    }
}

/// The refusal of an AS request before its client is known.
pub open spec fn as_early_refusal(
    realm: Seq<char>,
    body: KdcReqBody,
    fast: Option<&FastFacts>,
) -> Option<Error> {
    if fast matches Some(f) && unknown_critical_option(f.options@) {
        Some(refusal(crate::error::UNKNOWN_CRITICAL_FAST_OPTION, Status::FastOption))
    } else if body.realm@ != realm {
        Some(refusal(C_PRINCIPAL_UNKNOWN, Status::ClientNotFound))
    } else if body.cname is None {
        Some(refusal(C_PRINCIPAL_UNKNOWN, Status::NullClient))
    } else {
        None
    }
}

/// What a found client and server come to: policy, session key, client key.
/// `hint` is the list of pre-authentication types for a client without key.
pub open spec fn as_found_result(
    policy: Policy,
    realm: Seq<char>,
    body: KdcReqBody,
    client: Principal,
    server: Principal,
    session_enctypes: Option<Seq<i32>>,
    no_padata: bool,
    hint: Vec<u8>,
    lockout: Lockout,
    now: u32,
    r: Result<AsLookup, Error>,
) -> bool {
    match spec_validate_as_request(
        policy,
        realm,
        client,
        server_terms(server),
        body,
        lockout,
        now,
    ) {
        Err(e) => r matches Err(x) && x == e,
        Ok(restart) => match r {
            Ok(l) => {
                &&& *l.client == client
                &&& *l.server == server
                &&& l.cname@ == as_client_name(body, client.name@)
                &&& l.req_cname@ == body.cname->0@
                &&& l.sname@ == requested_server(body, realm)
                &&& l.restart_count == restart
                &&& first_session_enctype(
                    policy,
                    server,
                    session_enctypes,
                    body.etype@,
                    l.session_etype,
                )
                &&& is_client_key(policy, client, body.etype@, l.ckey)
            },
            Err(e) => {
                let no_session = forall|i: int|
                    0 <= i < body.etype@.len() ==> !session_enctype_ok(
                        policy,
                        server,
                        session_enctypes,
                        #[trigger] body.etype@[i],
                    );
                if no_session {
                    e == refusal(ETYPE_NOSUPP, Status::BadEncryptionType)
                } else {
                    no_client_key(policy, client, body.etype@) && e == (if client.requires_preauth
                        && no_padata {
                        Error::PreauthRequired { e_data: hint }
                    } else {
                        refusal(ETYPE_NOSUPP, Status::CantFindClientKey)
                    })
                }
            },
        },
    }
}

/// What an AS request comes to, in the order in which it is judged: FAST
/// options, realm, client, server, policy, session key, client key.
pub open spec fn as_lookup_result<S: PrincipalRead>(
    store: &S,
    body: KdcReqBody,
    fast: Option<&FastFacts>,
    session_enctypes: Option<Seq<i32>>,
    no_padata: bool,
    hint: Vec<u8>,
    word: Seq<char>,
    now: u32,
    r: Result<AsLookup, Error>,
) -> bool {
    match as_early_refusal(store.realm_view(), body, fast) {
        Some(e) => r matches Err(x) && x == e,
        None => match princ_lookup(store, body.cname->0@) {
            Err(e) => r matches Err(x) && lookup_fault(e, Status::LookingUpClient, word, x),
            Ok(None) => r matches Err(x) && x == refusal(
                C_PRINCIPAL_UNKNOWN,
                Status::ClientNotFound,
            ),
            Ok(Some(client)) => match princ_lookup(
                store,
                requested_server(body, store.realm_view()),
            ) {
                Err(e) => r matches Err(x) && lookup_fault(e, Status::LookingUpServer, word, x),
                Ok(None) => r matches Err(x) && x == refusal(
                    S_PRINCIPAL_UNKNOWN,
                    Status::ServerNotFound,
                ),
                Ok(Some(server)) => as_found_result(
                    store.policy_view(),
                    store.realm_view(),
                    body,
                    client,
                    server,
                    session_enctypes,
                    no_padata,
                    hint,
                    store.lockout_view(client),
                    now,
                    r,
                ),
            },
        },
    }
}

/// Finds client, server and keys of an AS request. `padata` are those of the FAST
/// layer where there is one.
pub fn lookup_client<'a, S: PrincipalRead>(
    store: &'a S,
    body: &KdcReqBody,
    fast: Option<&FastFacts>,
    padata: &[PaData],
    session_enctypes: Option<&[i32]>,
    hint: Vec<u8>,
    word: &str,
    now: u32,
) -> (r: Result<AsLookup<'a>, Error>)
    ensures
        as_lookup_result(
            store,
            *body,
            fast,
            i32_slice(session_enctypes),
            padata@.len() == 0,
            hint,
            word@,
            now,
            r,
        ),
{
    match fast {
        Some(f) => match check_fast_options(f.options) {
            Err(e) => {
                return Err(e);
            },
            Ok(()) => {},
        },
        None => {},
    }
    if !str_eq(body.realm.as_str(), store.realm()) {
        return Err(proto(C_PRINCIPAL_UNKNOWN, Status::ClientNotFound));
    }
    let req_cname = match &body.cname {
        Some(n) => n.copy(),
        None => {
            return Err(proto(C_PRINCIPAL_UNKNOWN, Status::NullClient));
        },
    };
    let client = match lookup_as_princ(store.fetch_name(&req_cname), Status::LookingUpClient, word) {
        Err(e) => {
            return Err(e);
        },
        Ok(None) => {
            return Err(proto(C_PRINCIPAL_UNKNOWN, Status::ClientNotFound));
        },
        Ok(Some(p)) => p,
    };
    let cname = if req_cname.name_type == NT_ENTERPRISE || body.kdc_options.bit(CANONICALIZE) {
        client.name.copy()
    } else {
        req_cname.copy()
    };
    let sname = match &body.sname {
        Some(n) => n.copy(),
        None => PrincipalName::krbtgt(store.realm()),
    };
    let server = match lookup_as_princ(store.fetch_name(&sname), Status::LookingUpServer, word) {
        Err(e) => {
            return Err(e);
        },
        Ok(None) => {
            return Err(proto(S_PRINCIPAL_UNKNOWN, Status::ServerNotFound));
        },
        Ok(Some(p)) => p,
    };
    let restart_count: bool = match validate_as_request(
        store.policy(),
        store.realm(),
        client,
        server,
        body,
        store.lockout_of(client),
        now,
    ) {
        Err(e) => {
            return Err(e);
        },
        Ok(b) => b,
    };
    let session_etype: i32 = match select_session_keytype(
        store.policy(),
        server,
        session_enctypes,
        body.etype.as_slice(),
    ) {
        Err(e) => {
            return Err(e);
        },
        Ok(e) => e,
    };
    proof {
        let sl = i32_slice(session_enctypes);
        let p = store.policy_view();
        let i = choose|i: int|
            {
                &&& 0 <= i < body.etype@.len()
                &&& #[trigger] body.etype@[i] == session_etype
                &&& session_enctype_ok(p, *server, sl, session_etype)
                &&& forall|j: int|
                    0 <= j < i ==> !session_enctype_ok(p, *server, sl, #[trigger] body.etype@[j])
            };
        assert(session_enctype_ok(p, *server, sl, body.etype@[i]));
    }
    let ckey: usize = match select_client_key(store.policy(), client, body.etype.as_slice()) {
        Some(k) => k,
        None => {
            if client.requires_preauth && padata.len() == 0 {
                return Err(Error::PreauthRequired { e_data: hint });
            }
            return Err(proto(ETYPE_NOSUPP, Status::CantFindClientKey));
        },
    };
    Ok(AsLookup { client, cname, req_cname, server, sname, session_etype, ckey, restart_count })
}

/// `v` with `x` behind it, unless it is there already.
pub open spec fn with_indicator(v: Seq<Seq<char>>, x: Seq<char>) -> Seq<Seq<char>> {
    if v.contains(x) {
        v
    } else {
        v.push(x)
    }
}

/// `v` with each of `xs` behind it that is not there already.
pub open spec fn with_indicators(v: Seq<Seq<char>>, xs: Seq<Seq<char>>) -> Seq<Seq<char>>
    decreases xs.len(),
{
    if xs.len() == 0 {
        v
    } else {
        with_indicator(with_indicators(v, xs.drop_last()), xs.last())
    }
}

/// Adds an indicator, unless it is there already.
pub fn authind_add(v: &mut Vec<String>, x: &str)
    ensures
        views(final(v)@) == with_indicator(views(old(v)@), x@),
{
    if contains_string(v.as_slice(), x) {
        proof {
            let i = choose|i: int| 0 <= i < v@.len() && (#[trigger] v@[i])@ == x@;
            assert(views(v@)[i] == x@);
        }
        return;
    }
    proof {
        if views(v@).contains(x@) {
            let i = choose|i: int| 0 <= i < views(v@).len() && views(v@)[i] == x@;
            assert(v@[i]@ == x@);
        }
    }
    v.push(x.to_owned());
    proof {
        assert(views(final(v)@) =~= views(old(v)@).push(x@));
    }
}

/// Adds indicators, each unless it is there already.
pub fn authind_add_all(v: &mut Vec<String>, xs: &[String])
    ensures
        views(final(v)@) == with_indicators(views(old(v)@), views(xs@)),
{
    let ghost before = views(v@);
    let ghost all = views(xs@);
    let mut i: usize = 0;
    proof {
        assert(all.take(0) =~= Seq::<Seq<char>>::empty());
    }
    while i < xs.len()
        invariant
            i <= xs.len(),
            all == views(xs@),
            views(v@) == with_indicators(before, all.take(i as int)),
        decreases xs.len() - i,
    {
        authind_add(v, xs[i].as_str());
        i = i + 1;
        proof {
            assert(all.take(i as int).drop_last() =~= all.take(i - 1));
        }
    }
    proof {
        assert(all.take(all.len() as int) =~= all);
    }
}

/// What a pre-authentication module made of a request.
#[derive(Clone, Debug, PartialEq, Eq)]
pub enum PreauthAction {
    /// PKINIT succeeded; `signed` where the client signed the request.
    Pkinit {
        /// Reply key.
        key: EncryptionKey,
        /// Reply datum.
        pa: PaData,
        /// The client signed the request.
        signed: bool,
    },
    /// The module asks for more.
    Challenge(Vec<u8>),
    /// SPAKE succeeded, with this reply key.
    SpakeDone(EncryptionKey),
    /// The encrypted timestamp is good.
    EncTsOk,
}

/// What pre-authentication brought.
pub struct AsPreauth {
    /// Client of the ticket.
    pub cname: PrincipalName,
    /// Padata of the reply.
    pub extra_padata: Vec<PaData>,
    /// Reply key: that of the module which authenticated the client, else the
    /// client's own.
    pub as_rep_key: EncryptionKey,
    /// The client proved who it is.
    pub authenticated: bool,
    /// A module replaced the reply key.
    pub reply_key_replaced: bool,
    /// Authentication indicators.
    pub indicators: Vec<String>,
    /// The client is anonymous.
    pub anonymous: bool,
}

/// Adds the list of pre-authentication types to a failed pre-authentication
/// that carries no data.
pub open spec fn with_hint(e: Error, hint: Vec<u8>) -> Error {
    match e {
        Error::Protocol { code, text, e_data, detail } => if e_data is None && (code
            == PREAUTH_FAILED || code == PREAUTH_EXPIRED) {
            Error::Protocol { code: PREAUTH_FAILED, text, e_data: Some(hint), detail }
        } else {
            e
        },
        _ => e,
    }
}

/// Adds the list of pre-authentication types to a failed pre-authentication.
pub fn attach_preauth_hint(e: Error, hint: Vec<u8>) -> (r: Error)
    ensures
        r == with_hint(e, hint),
{
    match e {
        Error::Protocol { code, text, e_data, detail } => {
            if e_data.is_none() && (code == PREAUTH_FAILED || code == PREAUTH_EXPIRED) {
                Error::Protocol { code: PREAUTH_FAILED, text, e_data: Some(hint), detail }
            } else {
                Error::Protocol { code, text, e_data, detail }
            }
        },
        other => other,
    }
}

/// What the request brings to pre-authentication.
pub struct PreauthInput<'a> {
    /// Padata, those of the FAST layer where there is one.
    pub padata: &'a [PaData],
    /// The request has a FAST layer.
    pub fast: bool,
    /// What the modules made of it.
    pub module: Result<Option<PreauthAction>, Error>,
    /// What the encrypted challenge came to.
    pub challenge: Result<(), Error>,
    /// The KDC's half of that challenge.
    pub challenge_reply: Result<PaData, Error>,
    /// The list of pre-authentication types.
    pub hint: Vec<u8>,
    /// The description of the client's key, where it can be encoded.
    pub info2: Option<Vec<u8>>,
}

/// A module's challenge, completed: where the client sent no cookie yet, it gets
/// the description of its key, unless that is there.
pub open spec fn completed_challenge(
    method: Seq<PaData>,
    padata: Seq<PaData>,
    info2: Option<Vec<u8>>,
) -> Seq<PaData> {
    method + (if has_pa(padata, PA_FX_COOKIE) || has_pa(method, PA_ETYPE_INFO2) {
        Seq::empty()
    } else {
        one_datum(PA_ETYPE_INFO2, info2)
    })
}

/// The data that are cookies, or those that are not.
pub open spec fn cookies(v: Seq<PaData>, are: bool) -> Seq<PaData>
    decreases v.len(),
{
    if v.len() == 0 {
        Seq::empty()
    } else {
        let front = cookies(v.drop_last(), are);
        if (v.last().padata_type == PA_FX_COOKIE) == are {
            front.push(v.last())
        } else {
            front
        }
    }
}

/// The data in their order, but cookies last.
pub open spec fn cookie_last(v: Seq<PaData>) -> Seq<PaData> {
    cookies(v, false) + cookies(v, true)
}

/// Puts cookies last.
pub fn pa_cookie_last(v: Vec<PaData>) -> (r: Vec<PaData>)
    ensures
        r@ == cookie_last(v@),
{
    let ghost all = v@;
    let mut rest = v;
    let mut out: Vec<PaData> = Vec::new();
    let mut last: Vec<PaData> = Vec::new();
    let ghost mut n: int = 0;
    proof {
        assert(all.take(0) =~= Seq::<PaData>::empty());
        assert(all.skip(0) =~= all);
        assert(out@ =~= cookies(all.take(0), false));
        assert(last@ =~= cookies(all.take(0), true));
    }
    while rest.len() > 0
        invariant
            0 <= n <= all.len(),
            rest@ == all.skip(n),
            out@ == cookies(all.take(n), false),
            last@ == cookies(all.take(n), true),
        decreases rest.len(),
    {
        let p = rest.remove(0);
        proof {
            assert(p == all[n]);
            assert(all.take(n + 1).drop_last() =~= all.take(n));
            assert(all.take(n + 1).last() == p);
            assert(rest@ =~= all.skip(n + 1));
            n = n + 1;
        }
        if p.padata_type == PA_FX_COOKIE {
            last.push(p);
        } else {
            out.push(p);
        }
    }
    proof {
        assert(all.take(n) =~= all);
    }
    out.append(&mut last);
    out
}

/// The data that go out with a module's challenge: its list is read, completed
/// and written with the cookie last; where it cannot be written, the challenge
/// goes out as it is.
pub open spec fn challenge_sent<
    R: Fn(&Vec<u8>) -> Vec<PaData>,
    M: Fn(&Vec<PaData>) -> Option<Vec<u8>>,
>(
    raw: Vec<u8>,
    padata: Seq<PaData>,
    info2: Option<Vec<u8>>,
    read: R,
    write: M,
    d: Vec<u8>,
) -> bool {
    exists|m: Vec<PaData>, l: Vec<PaData>, o: Option<Vec<u8>>|
        {
            &&& #[trigger] call_ensures(read, (&raw,), m)
            &&& l@ == cookie_last(completed_challenge(m@, padata, info2))
            &&& #[trigger] call_ensures(write, (&l,), o)
            &&& d == (match o {
                Some(x) => x,
                None => raw,
            })
        }
}

/// Makes the data that go out with a module's challenge.
fn challenge_data<
    R: Fn(&Vec<u8>) -> Vec<PaData>,
    M: Fn(&Vec<PaData>) -> Option<Vec<u8>>,
>(
    raw: Vec<u8>,
    padata: &[PaData],
    info2: Option<Vec<u8>>,
    read: &R,
    write: &M,
) -> (d: Vec<u8>)
    requires
        forall|x: Vec<u8>| #[trigger] call_requires(*read, (&x,)),
        forall|x: Vec<PaData>| #[trigger] call_requires(*write, (&x,)),
    ensures
        challenge_sent(raw, padata@, info2, *read, *write, d),
{
    let m = read(&raw);
    let ghost method = m;
    let l = pa_cookie_last(complete_challenge(m, padata, info2));
    let o = write(&l);
    proof {
        assert(call_ensures(*read, (&raw,), method));
        assert(call_ensures(*write, (&l,), o));
    }
    match o {
        Some(x) => x,
        None => raw,
    }
}

/// The challenge of a module that is asked, where it makes one.
pub open spec fn asked_challenge(req_cname: NameView, o: Flags, input: PreauthInput) -> Option<
    Vec<u8>,
> {
    if !input.fast && has_pa(input.padata@, PA_ENCRYPTED_CHALLENGE) {
        None
    } else if o.has(ANONYMOUS as int) && !req_cname.is_anonymous() {
        None
    } else {
        match input.module {
            Ok(Some(PreauthAction::Challenge(d))) => Some(d),
            _ => None,
        }
    }
}

/// `sent` is what goes out with a module's challenge, where it makes one.
pub open spec fn sends<
    R: Fn(&Vec<u8>) -> Vec<PaData>,
    M: Fn(&Vec<PaData>) -> Option<Vec<u8>>,
>(
    req_cname: NameView,
    o: Flags,
    input: PreauthInput,
    read: R,
    write: M,
    sent: Vec<u8>,
) -> bool {
    asked_challenge(req_cname, o, input) matches Some(raw) ==> challenge_sent(
        raw,
        input.padata@,
        input.info2,
        read,
        write,
        sent,
    )
}

/// The request has an encrypted challenge inside its FAST layer that says
/// anything.
pub open spec fn offers_challenge(input: PreauthInput) -> bool {
    input.fast && has_pa(input.padata@, PA_ENCRYPTED_CHALLENGE) && input.padata@[
        crate::msg::pa_position(input.padata@, PA_ENCRYPTED_CHALLENGE)
    ].padata_value@.len() > 0
}

/// A module authenticated the client.
pub open spec fn module_ok(a: Option<PreauthAction>) -> bool {
    a is Some
}

/// The challenge is looked at: no module authenticated the client.
pub open spec fn tries_challenge(input: PreauthInput, a: Option<PreauthAction>) -> bool {
    !module_ok(a) && offers_challenge(input)
}

/// The refusal that pre-authentication ends in, in the order in which it is
/// judged. `sent` is what goes out with a module's challenge.
pub open spec fn preauth_refusal(
    client: Principal,
    req_cname: NameView,
    o: Flags,
    input: PreauthInput,
    sent: Vec<u8>,
) -> Option<Error> {
    let anon = o.has(ANONYMOUS as int);
    if !input.fast && has_pa(input.padata@, PA_ENCRYPTED_CHALLENGE) {
        Some(with_hint(refusal(PREAUTH_FAILED, Status::PreauthFailed), input.hint))
    } else if anon && !req_cname.is_anonymous() {
        Some(refusal(BADOPTION, Status::ValidateAnonymousPrincipal))
    } else {
        match input.module {
            Err(e) => Some(with_hint(e, input.hint)),
            Ok(a) => if a matches Some(PreauthAction::Challenge(d)) {
                Some(
                    Error::Protocol {
                        code: MORE_PREAUTH_DATA_REQUIRED,
                        text: Some(Status::PreauthFailed),
                        e_data: Some(sent),
                        detail: None,
                    },
                )
            } else if tries_challenge(input, a) && input.challenge is Err {
                Some(input.challenge->Err_0)
            } else if tries_challenge(input, a) && input.challenge_reply is Err {
                Some(input.challenge_reply->Err_0)
            } else if (client.requires_preauth || anon) && !module_ok(a) && !tries_challenge(
                input,
                a,
            ) {
                Some(Error::PreauthRequired { e_data: input.hint })
            } else if attr_set(client.attributes, KDB_REQUIRES_HW_AUTH) {
                Some(
                    Error::Protocol {
                        code: PREAUTH_REQUIRED,
                        text: Some(Status::NeededHwPreauth),
                        e_data: Some(input.hint),
                        detail: None,
                    },
                )
            } else {
                None
            },
        }
    }
}

/// The attempt that goes on record: that of an encrypted challenge, where one
/// was looked at.
pub open spec fn recorded_attempt(
    req_cname: NameView,
    o: Flags,
    input: PreauthInput,
) -> Option<bool> {
    if !input.fast || (o.has(ANONYMOUS as int) && !req_cname.is_anonymous()) {
        None
    } else {
        match input.module {
            Ok(a) => if !(a matches Some(PreauthAction::Challenge(_))) && tries_challenge(
                input,
                a,
            ) {
                Some(input.challenge is Ok)
            } else {
                None
            },
            Err(_) => None,
        }
    }
}

/// The indicators that pre-authentication brings.
pub open spec fn preauth_indicators(policy: Policy, input: PreauthInput) -> Seq<Seq<char>> {
    match input.module->Ok_0 {
        Some(PreauthAction::Pkinit { signed, .. }) => if signed {
            with_indicators(Seq::empty(), views(policy.pkinit_indicators@))
        } else {
            Seq::empty()
        },
        Some(PreauthAction::SpakeDone(_)) => with_indicators(
            Seq::empty(),
            views(policy.spake_preauth_indicators@),
        ),
        Some(_) => Seq::empty(),
        None => if offers_challenge(input) && policy.encrypted_challenge_indicator is Some {
            seq![policy.encrypted_challenge_indicator->0@]
        } else {
            Seq::empty()
        },
    }
}

/// Pre-authentication accepted with these terms. `ckey` is the client's key.
pub open spec fn preauth_accepts(
    policy: Policy,
    ckey: KeyEntry,
    cname: NameView,
    o: Flags,
    input: PreauthInput,
    p: AsPreauth,
) -> bool {
    let a = input.module->Ok_0;
    &&& p.anonymous == o.has(ANONYMOUS as int)
    &&& p.cname@ == (if p.anonymous {
        anonymous_view()
    } else {
        cname
    })
    &&& p.authenticated == (module_ok(a) || tries_challenge(input, a))
    &&& p.reply_key_replaced == ((a matches Some(PreauthAction::Pkinit { .. })) || (a matches Some(
        PreauthAction::SpakeDone(_),
    )))
    &&& match a {
        Some(PreauthAction::Pkinit { key, .. }) => p.as_rep_key == key,
        Some(PreauthAction::SpakeDone(key)) => p.as_rep_key == key,
        _ => key_octets(p.as_rep_key) == ckey.octets(),
    }
    &&& views(p.indicators@) == preauth_indicators(policy, input)
    &&& p.extra_padata@ == (match a {
        Some(PreauthAction::Pkinit { pa, .. }) => seq![pa],
        _ => if tries_challenge(input, a) {
            seq![input.challenge_reply->Ok_0]
        } else {
            Seq::empty()
        },
    })
}

/// What pre-authentication comes to.
pub open spec fn preauth_result<
    R: Fn(&Vec<u8>) -> Vec<PaData>,
    M: Fn(&Vec<PaData>) -> Option<Vec<u8>>,
>(
    policy: Policy,
    client: Principal,
    ckey: KeyEntry,
    cname: NameView,
    req_cname: NameView,
    o: Flags,
    input: PreauthInput,
    read: R,
    write: M,
    r: Result<AsPreauth, Error>,
) -> bool {
    exists|sent: Vec<u8>| #[trigger]
        sends(req_cname, o, input, read, write, sent) && (match preauth_refusal(
            client,
            req_cname,
            o,
            input,
            sent,
        ) {
            Some(e) => r matches Err(x) && x == e,
            None => r matches Ok(p) && preauth_accepts(policy, ckey, cname, o, input, p),
        })
}

/// Judges the pre-authentication of an AS request. The first part of the
/// result is the attempt to put on record. `ckey` is the client's key; `read` reads
/// the list in a module's challenge and `write` writes it.
pub fn finish_preauth<
    R: Fn(&Vec<u8>) -> Vec<PaData>,
    M: Fn(&Vec<PaData>) -> Option<Vec<u8>>,
>(
    policy: &Policy,
    client: &Principal,
    ckey: &KeyEntry,
    cname: PrincipalName,
    req_cname: &PrincipalName,
    o: Flags,
    input: PreauthInput,
    read: &R,
    write: &M,
) -> (r: (Option<bool>, Result<AsPreauth, Error>))
    requires
        forall|x: Vec<u8>| #[trigger] call_requires(*read, (&x,)),
        forall|x: Vec<PaData>| #[trigger] call_requires(*write, (&x,)),
    ensures
        r.0 == recorded_attempt(req_cname@, o, input),
        preauth_result(
            *policy,
            *client,
            *ckey,
            cname@,
            req_cname@,
            o,
            input,
            *read,
            *write,
            r.1,
        ),
{
    let ghost whole = input;
    let ghost none: Vec<u8> = whole.hint;
    proof {
        if asked_challenge(req_cname@, o, whole) is None {
            assert(sends(req_cname@, o, whole, *read, *write, none));
        }
    }
    let PreauthInput { padata, fast, module, challenge, challenge_reply, hint, info2 } = input;
    let at = find_pa(padata, PA_ENCRYPTED_CHALLENGE);
    if !fast && at.is_some() {
        return (
            None,
            Err(attach_preauth_hint(proto(PREAUTH_FAILED, Status::PreauthFailed), hint)),
        );
    }
    let mut cname = cname;
    let anonymous: bool = o.bit(ANONYMOUS);
    if anonymous {
        if !req_cname.is_anonymous() {
            return (None, Err(proto(BADOPTION, Status::ValidateAnonymousPrincipal)));
        }
        cname = PrincipalName::anonymous();
    }
    let mut extra_padata: Vec<PaData> = Vec::new();
    let mut indicators: Vec<String> = Vec::new();
    proof {
        assert(views(indicators@) =~= Seq::<Seq<char>>::empty());
    }
    let mut as_rep_key = ckey.to_key();
    let mut authenticated: bool = false;
    let mut reply_key_replaced: bool = false;
    let mut attempt: Option<bool> = None;
    match module {
        Err(e) => {
            return (None, Err(attach_preauth_hint(e, hint)));
        },
        Ok(Some(PreauthAction::Pkinit { key, pa, signed })) => {
            as_rep_key = key;
            extra_padata.push(pa);
            authenticated = true;
            reply_key_replaced = true;
            if signed {
                authind_add_all(&mut indicators, policy.pkinit_indicators.as_slice());
            }
        },
        Ok(Some(PreauthAction::Challenge(raw))) => {
            let e_data = challenge_data(raw, padata, info2, read, write);
            proof {
                assert(sends(req_cname@, o, whole, *read, *write, e_data));
            }
            return (
                None,
                Err(
                    Error::Protocol {
                        code: MORE_PREAUTH_DATA_REQUIRED,
                        text: Some(Status::PreauthFailed),
                        e_data: Some(e_data),
                        detail: None,
                    },
                ),
            );
        },
        Ok(Some(PreauthAction::SpakeDone(key))) => {
            as_rep_key = key;
            authenticated = true;
            reply_key_replaced = true;
            authind_add_all(&mut indicators, policy.spake_preauth_indicators.as_slice());
        },
        Ok(Some(PreauthAction::EncTsOk)) => {
            authenticated = true;
        },
        Ok(None) => {
            if fast {
                match at {
                    Some(i) => {
                        if padata[i].padata_value.len() > 0 {
                            match challenge {
                                Err(e) => {
                                    return (Some(false), Err(e));
                                },
                                Ok(()) => {},
                            }
                            attempt = Some(true);
                            authenticated = true;
                            match challenge_reply {
                                Err(e) => {
                                    return (Some(true), Err(e));
                                },
                                Ok(pa) => {
                                    extra_padata.push(pa);
                                },
                            }
                            match &policy.encrypted_challenge_indicator {
                                Some(ai) => {
                                    authind_add(&mut indicators, ai.as_str());
                                    proof {
                                        assert(views(indicators@) =~= seq![ai@]);
                                    }
                                },
                                None => {},
                            }
                        }
                    },
                    None => {},
                }
            }
        },
    }
    if (client.requires_preauth || anonymous) && !authenticated {
        return (attempt, Err(Error::PreauthRequired { e_data: hint }));
    }
    if attr(client, KDB_REQUIRES_HW_AUTH) {
        return (
            attempt,
            Err(
                Error::Protocol {
                    code: PREAUTH_REQUIRED,
                    text: Some(Status::NeededHwPreauth),
                    e_data: Some(hint),
                    detail: None,
                },
            ),
        );
    }
    (
        attempt,
        Ok(
            AsPreauth {
                cname,
                extra_padata,
                as_rep_key,
                authenticated,
                reply_key_replaced,
                indicators,
                anonymous,
            },
        ),
    )
}

/// A client that must pre-authenticate gets no further without it.
pub proof fn law_preauth_is_required(
    policy: Policy,
    client: Principal,
    ckey: KeyEntry,
    cname: NameView,
    req_cname: NameView,
    o: Flags,
    input: PreauthInput,
    sent: Vec<u8>,
    p: AsPreauth,
)
    requires
        client.requires_preauth || o.has(ANONYMOUS as int),
        preauth_refusal(client, req_cname, o, input, sent) is None,
        preauth_accepts(policy, ckey, cname, o, input, p),
    ensures
        p.authenticated,
        input.module->Ok_0 is Some || input.challenge is Ok,
{
}

/// The reply to a client that no module gave another key is under a key of the
/// client, and the reply describes a key only then.
pub proof fn law_reply_key_is_the_clients(
    policy: Policy,
    ckey: KeyEntry,
    cname: NameView,
    o: Flags,
    input: PreauthInput,
    p: AsPreauth,
)
    requires
        preauth_accepts(policy, ckey, cname, o, input, p),
        !p.reply_key_replaced,
    ensures
        key_octets(p.as_rep_key) == ckey.octets(),
{
}

/// What the ticket and the reply to an AS request are made of.
pub struct AsPlan<'a> {
    /// The server's key.
    pub server_key: usize,
    /// Session key.
    pub session: EncryptionKey,
    /// The datum with the KDC's contribution to an anonymous client's session key.
    pub kx: Option<PaData>,
    /// Times and flags of the ticket.
    pub times: TicketTimes,
    /// The ticket gets a PAC.
    pub include_pac: bool,
    /// Which key the PAC's KDC signatures come from.
    pub pac_key: PacKey,
    /// Key of the PAC's KDC signatures.
    pub kdc_key: EncryptionKey,
    /// Key of the local ticket-granting service.
    pub local_tgt_key: usize,
    /// The local ticket-granting service.
    pub local_tgt: &'a Principal,
    /// Server of the ticket.
    pub sname: PrincipalName,
    /// Client realm of the ticket.
    pub crealm: String,
    /// The reply describes the client's key.
    pub describes_key: bool,
    /// When the client's key expires.
    pub key_expiration: Option<u32>,
    /// Nonce of the reply.
    pub nonce: u32,
    /// The reply proves that it answers this request.
    pub want_enc_pa: bool,
    /// Client of the reply.
    pub rep_cname: PrincipalName,
    /// Client realm of the reply.
    pub rep_crealm: String,
}

/// Whether bit `i` is set in the flags of an AS ticket.
pub open spec fn as_flag(
    i: int,
    o: Flags,
    client: Principal,
    server: Principal,
    authenticated: bool,
    renew_till: Option<u32>,
) -> bool {
    if i == RENEWABLE {
        renew_till is Some
    } else if i == PRE_AUTHENT {
        authenticated
    } else if i == HW_AUTHENT {
        false
    } else {
        ticket_flag(i, o, Some(&client), &server, None)
    }
}

/// Server of an AS ticket: the entry's own name where a ticket-granting
/// service may be made canonical, else the one asked for.
pub open spec fn as_ticket_server(o: Flags, sname: NameView, entry: NameView) -> NameView {
    if o.has(CANONICALIZE as int) && sname.is_krbtgt() && entry.is_krbtgt() {
        entry
    } else {
        sname
    }
}

/// What the modules and the crypto layer bring to an AS ticket.
#[derive(Debug, PartialEq, Eq)]
pub struct IssueOutcome {
    /// The flag of PA-PAC-REQUEST.
    pub pac_request: Option<bool>,
    /// The policy module's verdict.
    pub verdict: Result<(), Error>,
    /// What came of the authorization data.
    pub authdata: Result<(), Error>,
}

/// The refusal that issuing an AS ticket ends in before the key of the PAC's KDC
/// signatures is made, in the order in which it is judged.
pub open spec fn as_issue_refusal(
    policy: Policy,
    body: KdcReqBody,
    client: Principal,
    server: Principal,
    session: Result<AsSession, Error>,
    verdict: Result<(), Error>,
    local_tgt: Result<Option<Principal>, Error>,
    now: u32,
) -> Option<Error> {
    let end = spec_ticket_endtime(
        &policy,
        spec_start(body, now),
        None,
        body.till,
        Some(&client),
        &server,
    );
    if policy.finds_enctype(server, None, 0, None) {
        Some(refusal(GENERIC, Status::FindingServerKey))
    } else if session is Err {
        Some(session->Err_0)
    } else if end is Err {
        Some(end->Err_0)
    } else if verdict is Err {
        Some(verdict->Err_0)
    } else if local_tgt is Err {
        Some(local_tgt->Err_0)
    } else if local_tgt->Ok_0 is None || policy.finds_enctype(local_tgt->Ok_0->0, None, 0, None) {
        Some(refusal(GENERIC, Status::GetLocalTgt))
    } else {
        None
    }
}

/// The refusal that issuing an AS ticket ends in after that. `at` is the place of
/// the server's list of indicators.
pub open spec fn as_late_refusal(
    server: Principal,
    indicators: Seq<String>,
    authdata: Result<(), Error>,
    at: int,
) -> Option<Error> {
    if authdata is Err {
        Some(authdata->Err_0)
    } else {
        match spec_check_indicators(server, indicators, at) {
            Err(e) => Some(e),
            Ok(()) => None,
        }
    }
}

/// `k` is the first permitted current key of an entry.
pub open spec fn is_current_key(policy: Policy, p: Principal, k: (i32, Seq<u8>)) -> bool {
    exists|i: usize| #[trigger]
        policy.finds_enctype(p, None, 0, Some(i)) && k == p.keys@[i as int].octets()
}

/// The key that the PAC's KDC signatures come from: that of the ticket where the
/// ticket is for the local ticket-granting service, else that service's.
pub open spec fn as_kdc_source(
    policy: Policy,
    realm: Seq<char>,
    server: Principal,
    sname: NameView,
    local_tgt: Principal,
    k: (i32, Seq<u8>),
) -> bool {
    if sname.is_krbtgt_for(realm) {
        is_current_key(policy, server, k)
    } else {
        is_current_key(policy, local_tgt, k)
    }
}

/// `kdc` is what making the key of the PAC's KDC signatures comes to.
pub open spec fn as_kdc_key<
    N: Fn(&String) -> Option<i32>,
    D: Fn(&EncryptionKey, &str, i32) -> Option<EncryptionKey>,
>(
    policy: Policy,
    realm: Seq<char>,
    server: Principal,
    sname: NameView,
    local_tgt: Principal,
    named: N,
    derive: D,
    kdc: Result<EncryptionKey, Error>,
) -> bool {
    exists|from: EncryptionKey|
        as_kdc_source(policy, realm, server, sname, local_tgt, key_octets(from))
            && #[trigger] privsvr_result(server, from, named, derive, kdc)
}

/// The plan that answers an AS request.
pub open spec fn as_plan(
    policy: Policy,
    realm: Seq<char>,
    body: KdcReqBody,
    client: Principal,
    server: Principal,
    sname: NameView,
    pre: AsPreauth,
    padata: Seq<PaData>,
    fast: Option<&FastFacts>,
    pac_request: Option<bool>,
    session: AsSession,
    kdc_key: EncryptionKey,
    now: u32,
    p: AsPlan,
) -> bool {
    let o = body.kdc_options;
    let start = spec_start(body, now);
    &&& policy.finds_enctype(server, None, 0, Some(p.server_key))
    &&& policy.finds_enctype(*p.local_tgt, None, 0, Some(p.local_tgt_key))
    &&& session == (AsSession { key: p.session, kx: p.kx })
    &&& p.kdc_key == kdc_key
    &&& p.times.authtime == now
    &&& p.times.starttime == start
    &&& spec_ticket_endtime(&policy, start, None, body.till, Some(&client), &server) == Ok::<
        u32,
        Error,
    >(p.times.endtime)
    &&& p.times.renew_till == spec_renewtime(
        &policy,
        &body,
        None,
        Some(&client),
        &server,
        start,
        p.times.endtime,
    )
    &&& forall|i: int| #[trigger]
        p.times.flags.has(i) == as_flag(
            i,
            o,
            client,
            server,
            pre.authenticated,
            p.times.renew_till,
        )
    &&& p.include_pac == spec_include_pac(
        policy,
        attr_set(server.attributes, KDB_NO_AUTH_DATA_REQUIRED),
        true,
        pac_request,
        true,
        p.times.flags.has(ANONYMOUS as int),
    )
    &&& p.pac_key == (if sname.is_krbtgt_for(realm) {
        PacKey::TicketKey
    } else {
        PacKey::LocalTgt
    })
    &&& p.sname@ == as_ticket_server(o, sname, server.name@)
    &&& p.crealm@ == (if pre.anonymous {
        ANONYMOUS_REALM@
    } else {
        realm
    })
    &&& p.describes_key == !pre.reply_key_replaced
    &&& p.key_expiration == spec_key_exp(&client)
    &&& p.nonce == (match fast {
        Some(f) => f.nonce,
        None => body.nonce,
    })
    &&& p.want_enc_pa == wants_enc_pa(padata, fast)
    &&& (p.rep_cname@, p.rep_crealm@) == reply_client(pre.cname@, p.crealm@, fast)
}

/// What laying out the answer to an AS request comes to once the key of the PAC's
/// KDC signatures is there.
pub open spec fn as_laid_out(
    policy: Policy,
    realm: Seq<char>,
    body: KdcReqBody,
    client: Principal,
    server: Principal,
    sname: NameView,
    pre: AsPreauth,
    padata: Seq<PaData>,
    fast: Option<&FastFacts>,
    made: IssueOutcome,
    session: AsSession,
    local_tgt: Principal,
    kdc_key: EncryptionKey,
    now: u32,
    r: Result<AsPlan, Error>,
) -> bool {
    exists|at: int| #[trigger]
        is_first_attr(server.string_attrs@, REQUIRE_AUTH@, at) && (match as_late_refusal(
            server,
            pre.indicators@,
            made.authdata,
            at,
        ) {
            Some(e) => r matches Err(x) && x == e,
            None => r matches Ok(p) && *p.local_tgt == local_tgt && as_plan(
                policy,
                realm,
                body,
                client,
                server,
                sname,
                pre,
                padata,
                fast,
                made.pac_request,
                session,
                kdc_key,
                now,
                p,
            ),
        })
}

/// What laying out the answer to an AS request comes to.
pub open spec fn as_plan_result<
    N: Fn(&String) -> Option<i32>,
    D: Fn(&EncryptionKey, &str, i32) -> Option<EncryptionKey>,
>(
    policy: Policy,
    realm: Seq<char>,
    body: KdcReqBody,
    client: Principal,
    server: Principal,
    sname: NameView,
    pre: AsPreauth,
    padata: Seq<PaData>,
    fast: Option<&FastFacts>,
    made: IssueOutcome,
    session: Result<AsSession, Error>,
    local_tgt: Result<Option<Principal>, Error>,
    now: u32,
    named: N,
    derive: D,
    r: Result<AsPlan, Error>,
) -> bool {
    match as_issue_refusal(
        policy,
        body,
        client,
        server,
        session,
        made.verdict,
        local_tgt,
        now,
    ) {
        Some(e) => r matches Err(x) && x == e,
        None => exists|kdc: Result<EncryptionKey, Error>|
            {
                &&& #[trigger] as_kdc_key(
                    policy,
                    realm,
                    server,
                    sname,
                    local_tgt->Ok_0->0,
                    named,
                    derive,
                    kdc,
                )
                &&& match kdc {
                    Err(e) => r matches Err(x) && x == e,
                    Ok(k) => as_laid_out(
                        policy,
                        realm,
                        body,
                        client,
                        server,
                        sname,
                        pre,
                        padata,
                        fast,
                        made,
                        session->Ok_0,
                        local_tgt->Ok_0->0,
                        k,
                        now,
                        r,
                    ),
                }
            },
    }
}

/// Lays out the ticket and the reply that answer an AS request. `session` is what
/// came of making the session key; `named` reads the name of a key type, and
/// `derive` derives a key of another type.
pub fn finish_process_as_req<
    'a,
    N: Fn(&String) -> Option<i32>,
    D: Fn(&EncryptionKey, &str, i32) -> Option<EncryptionKey>,
>(
    policy: &Policy,
    realm: &str,
    body: &KdcReqBody,
    client: &Principal,
    server: &Principal,
    sname: &PrincipalName,
    pre: &AsPreauth,
    padata: &[PaData],
    fast: Option<&FastFacts>,
    made: IssueOutcome,
    session: Result<AsSession, Error>,
    local_tgt: Result<Option<&'a Principal>, Error>,
    now: u32,
    named: &N,
    derive: &D,
) -> (r: Result<AsPlan<'a>, Error>)
    requires
        forall|x: String| #[trigger] call_requires(*named, (&x,)),
        forall|k: EncryptionKey, l: &str, t: i32| #[trigger] call_requires(*derive, (&k, l, t)),
    ensures
        as_plan_result(
            *policy,
            realm@,
            *body,
            *client,
            *server,
            sname@,
            *pre,
            padata@,
            fast,
            made,
            session,
            fetched(local_tgt),
            now,
            *named,
            *derive,
            r,
        ),
{
    let at = crate::store::find_attr(server.string_attrs.as_slice(), REQUIRE_AUTH);
    proof {
        assert(is_first_attr(server.string_attrs@, REQUIRE_AUTH@, at as int));
    }
    let server_key: usize = match policy.first_current_key(server) {
        Some(i) => i,
        None => {
            return Err(proto(GENERIC, Status::FindingServerKey));
        },
    };
    proof {
        if policy.finds_enctype(*server, None, 0, None) {
            crate::store::lemma_finds_enctype_unique(
                *policy,
                *server,
                None,
                0,
                Some(server_key),
                None,
            );
        }
    }
    let IssueOutcome { pac_request, verdict, authdata } = made;
    let AsSession { key: session, kx } = match session {
        Err(e) => {
            return Err(e);
        },
        Ok(k) => k,
    };
    let o = body.kdc_options;
    let starttime: u32 = requested_start(body, now);
    let mut flags = get_ticket_flags(o, Some(client), server, None).with_bit(
        PRE_AUTHENT,
        pre.authenticated,
    ).with_bit(HW_AUTHENT, false);
    let endtime: u32 = match kdc_get_ticket_endtime(
        policy,
        starttime,
        None,
        body.till,
        Some(client),
        server,
    ) {
        Err(e) => {
            return Err(e);
        },
        Ok(t) => t,
    };
    let renew_till = kdc_get_ticket_renewtime(
        policy,
        body,
        None,
        Some(client),
        server,
        &mut flags,
        starttime,
        endtime,
    );
    match verdict {
        Err(e) => {
            return Err(e);
        },
        Ok(()) => {},
    }
    let include_pac = include_pac_for_reply(
        policy,
        server,
        true,
        pac_request,
        true,
        flags.bit(ANONYMOUS),
    );
    let local_tgt = match local_tgt {
        Err(e) => {
            return Err(e);
        },
        Ok(None) => {
            return Err(proto(GENERIC, Status::GetLocalTgt));
        },
        Ok(Some(t)) => t,
    };
    let local_tgt_key: usize = match policy.first_current_key(local_tgt) {
        Some(i) => i,
        None => {
            return Err(proto(GENERIC, Status::GetLocalTgt));
        },
    };
    proof {
        if policy.finds_enctype(*local_tgt, None, 0, None) {
            crate::store::lemma_finds_enctype_unique(
                *policy,
                *local_tgt,
                None,
                0,
                Some(local_tgt_key),
                None,
            );
        }
    }
    let pac_key = if sname.is_krbtgt_for(realm) {
        PacKey::TicketKey
    } else {
        PacKey::LocalTgt
    };
    let ticket_sname = if o.bit(CANONICALIZE) && sname.is_krbtgt() && server.name.is_krbtgt() {
        server.name.copy()
    } else {
        sname.copy()
    };
    let from = match pac_key {
        PacKey::TicketKey => server.keys[server_key].to_key(),
        PacKey::LocalTgt => local_tgt.keys[local_tgt_key].to_key(),
    };
    proof {
        assert(policy.finds_enctype(*server, None, 0, Some(server_key)));
        assert(policy.finds_enctype(*local_tgt, None, 0, Some(local_tgt_key)));
        assert(as_kdc_source(
            *policy,
            realm@,
            *server,
            sname@,
            *local_tgt,
            key_octets(from),
        ));
    }
    let kdc = pac_privsvr_key(server, &from, named, derive);
    proof {
        assert(privsvr_result(*server, from, *named, *derive, kdc));
        assert(as_kdc_key(*policy, realm@, *server, sname@, *local_tgt, *named, *derive, kdc));
    }
    let kdc_key = match kdc {
        Err(e) => {
            return Err(e);
        },
        Ok(k) => k,
    };
    match authdata {
        Err(e) => {
            return Err(e);
        },
        Ok(()) => {},
    }
    let judged = check_indicators(server, pre.indicators.as_slice());
    proof {
        crate::issue::tgs_req::lemma_first_attr_unique(*server, at as int);
    }
    match judged {
        Err(e) => {
            return Err(e);
        },
        Ok(()) => {},
    }
    let crealm: String = if pre.anonymous {
        ANONYMOUS_REALM.to_owned()
    } else {
        realm.to_owned()
    };
    let (rep_cname, rep_crealm) = client_of_reply(&pre.cname, crealm.as_str(), fast);
    Ok(
        AsPlan {
            server_key,
            session,
            kx,
            times: TicketTimes { authtime: now, starttime, endtime, renew_till, flags },
            include_pac,
            pac_key,
            kdc_key,
            local_tgt_key,
            local_tgt,
            sname: ticket_sname,
            crealm,
            describes_key: !pre.reply_key_replaced,
            key_expiration: get_key_exp(client),
            nonce: reply_nonce(body, fast),
            want_enc_pa: asks_enc_pa(padata, fast),
            rep_cname,
            rep_crealm,
        },
    )
}

/// A ticket says that its client pre-authenticated only where it did.
pub proof fn law_preauth_flag_is_earned(
    policy: Policy,
    realm: Seq<char>,
    body: KdcReqBody,
    client: Principal,
    server: Principal,
    sname: NameView,
    pre: AsPreauth,
    padata: Seq<PaData>,
    fast: Option<&FastFacts>,
    pac_request: Option<bool>,
    session: AsSession,
    kdc_key: EncryptionKey,
    now: u32,
    p: AsPlan,
)
    requires
        as_plan(
            policy,
            realm,
            body,
            client,
            server,
            sname,
            pre,
            padata,
            fast,
            pac_request,
            session,
            kdc_key,
            now,
            p,
        ),
    ensures
        p.times.flags.has(PRE_AUTHENT as int) == pre.authenticated,
        !p.times.flags.has(HW_AUTHENT as int),
{
    assert(p.times.flags.has(PRE_AUTHENT as int) == as_flag(
        PRE_AUTHENT as int,
        body.kdc_options,
        client,
        server,
        pre.authenticated,
        p.times.renew_till,
    ));
    assert(p.times.flags.has(HW_AUTHENT as int) == as_flag(
        HW_AUTHENT as int,
        body.kdc_options,
        client,
        server,
        pre.authenticated,
        p.times.renew_till,
    ));
}

/// A requested type that only newer clients ask for.
pub open spec fn newer_client(policy: Policy, requested: Seq<i32>) -> bool {
    exists|i: int| 0 <= i < requested.len() && needs_info2(policy, #[trigger] requested[i])
}

/// Whether a requested type is one that only newer clients ask for.
pub fn is_newer_client(policy: &Policy, requested: &[i32]) -> (r: bool)
    ensures
        r == newer_client(*policy, requested@),
{
    let mut i: usize = 0;
    while i < requested.len()
        invariant
            i <= requested.len(),
            forall|k: int| 0 <= k < i ==> !needs_info2(*policy, #[trigger] requested@[k]),
        decreases requested.len() - i,
    {
        if enctype_requires_etype_info_2(policy, requested[i]) {
            proof {
                assert(needs_info2(*policy, requested@[i as int]));
            }
            return true;
        }
        i = i + 1;
    }
    false
}

/// A list of one datum, or of none.
pub open spec fn one_datum(ty: i32, value: Option<Vec<u8>>) -> Seq<PaData> {
    match value {
        Some(v) => seq![PaData { padata_type: ty, padata_value: v }],
        None => Seq::empty(),
    }
}

/// The description of a client's key: PA-ETYPE-INFO for older clients only,
/// PA-ETYPE-INFO2 for all.
pub open spec fn key_description(newer: bool, info: Option<Vec<u8>>, info2: Option<Vec<u8>>) -> Seq<
    PaData,
> {
    (if newer {
        Seq::empty()
    } else {
        one_datum(PA_ETYPE_INFO, info)
    }) + one_datum(PA_ETYPE_INFO2, info2)
}

/// Describes a client's key. `info` and `info2` are the encoded
/// descriptions, where they can be encoded.
pub fn etype_info_padata(
    policy: &Policy,
    requested: &[i32],
    info: Option<Vec<u8>>,
    info2: Option<Vec<u8>>,
) -> (r: Vec<PaData>)
    ensures
        r@ == key_description(newer_client(*policy, requested@), info, info2),
{
    let mut out: Vec<PaData> = Vec::new();
    if !is_newer_client(policy, requested) {
        match info {
            Some(v) => {
                out.push(PaData { padata_type: PA_ETYPE_INFO, padata_value: v });
            },
            None => {},
        }
    }
    match info2 {
        Some(v) => {
            out.push(PaData { padata_type: PA_ETYPE_INFO2, padata_value: v });
        },
        None => {},
    }
    out
}

/// Describes a client's key in an AS reply: older clients get its salt as
/// well.
pub fn as_rep_key_info(
    policy: &Policy,
    requested: &[i32],
    info: Option<Vec<u8>>,
    info2: Option<Vec<u8>>,
    salt: Vec<u8>,
) -> (r: Vec<PaData>)
    ensures
        r@ == key_description(newer_client(*policy, requested@), info, info2) + (if newer_client(
            *policy,
            requested@,
        ) {
            Seq::empty()
        } else {
            seq![PaData { padata_type: PA_PW_SALT, padata_value: salt }]
        }),
{
    let mut out = etype_info_padata(policy, requested, info, info2);
    if !is_newer_client(policy, requested) {
        out.push(PaData { padata_type: PA_PW_SALT, padata_value: salt });
    }
    out
}

/// The list of pre-authentication types: FAST first, then the description of
/// the client's key, then the modules, then freshness and cookie.
pub open spec fn hint_list(
    modules: Seq<PaData>,
    info: Seq<PaData>,
    freshness: Option<Vec<u8>>,
    cookie: Option<Vec<u8>>,
) -> Seq<PaData> {
    let at: int = if modules.len() > 0 && modules[0].padata_type == PA_FX_FAST {
        1
    } else {
        0
    };
    modules.take(at) + info + modules.skip(at) + one_datum(PA_AS_FRESHNESS, freshness)
        + one_datum(PA_FX_COOKIE, cookie)
}

/// Makes the list of pre-authentication types. `info` describes the client's
/// key, where it has one; `freshness` and `cookie` are there where they could
/// be made.
pub fn preauth_hint(
    modules: Vec<PaData>,
    info: Vec<PaData>,
    freshness: Option<Vec<u8>>,
    cookie: Option<Vec<u8>>,
) -> (r: Vec<PaData>)
    ensures
        r@ == hint_list(modules@, info@, freshness, cookie),
{
    let ghost all = modules@;
    let at: usize = if modules.len() > 0 && modules[0].padata_type == PA_FX_FAST {
        1
    } else {
        0
    };
    let mut out = modules;
    let mut rest = out.split_off(at);
    let mut info = info;
    out.append(&mut info);
    out.append(&mut rest);
    match freshness {
        Some(v) => {
            out.push(PaData { padata_type: PA_AS_FRESHNESS, padata_value: v });
        },
        None => {},
    }
    match cookie {
        Some(v) => {
            out.push(PaData { padata_type: PA_FX_COOKIE, padata_value: v });
        },
        None => {},
    }
    out
}

/// Completes a module's challenge: where the client sent no cookie yet, it
/// gets the description of its key, unless that is there.
pub fn complete_challenge(
    method: Vec<PaData>,
    padata: &[PaData],
    info2: Option<Vec<u8>>,
) -> (r: Vec<PaData>)
    ensures
        r@ == completed_challenge(method@, padata@, info2),
{
    let mut out = method;
    if find_pa(padata, PA_FX_COOKIE).is_none() && find_pa(
        out.as_slice(),
        PA_ETYPE_INFO2,
    ).is_none() {
        match info2 {
            Some(v) => {
                out.push(PaData { padata_type: PA_ETYPE_INFO2, padata_value: v });
            },
            None => {},
        }
    }
    out
}

/// The key of a reply is one of the client's that was asked for: of the first
/// requested type, among those known, of which the client has a permitted key and
/// no newer key of any type; and there is one wherever such a type was requested.
pub proof fn law_client_key_was_asked_for(
    policy: Policy,
    p: Principal,
    requested: Seq<i32>,
    k: usize,
    i: int,
    n: int,
)
    requires
        0 <= i < requested.len(),
        policy.known_enctypes@.contains(requested[i]),
        policy.permitted_enctypes@.contains(requested[i]),
        0 <= n < p.keys@.len(),
        p.keys@[n].etype == requested[i],
        forall|m: int| 0 <= m < p.keys@.len() ==> (#[trigger] p.keys@[m]).kvno <= p.keys@[n].kvno,
    ensures
        !no_client_key(policy, p, requested),
        is_client_key(policy, p, requested, k) ==> {
            &&& k < p.keys@.len()
            &&& policy.permitted_enctypes@.contains(p.keys@[k as int].etype)
            &&& p.keys@[k as int].kvno == p.keys@[n].kvno
            &&& exists|j: int| 0 <= j <= i && #[trigger] requested[j] == p.keys@[k as int].etype
        },
{
    let e = requested[i];
    crate::store::lemma_max_kvno(p.keys@);
    let m = crate::store::max_kvno(p.keys@);
    if m > 0 {
        let j = choose|j: int| 0 <= j < p.keys@.len() && p.keys@[j].kvno == m;
        assert(p.keys@[j].kvno <= p.keys@[n].kvno);
    }
    assert(p.keys@[n].kvno == m);
    assert(policy.key_matches(p.keys@[n], Some(e), m));
    assert(!policy.finds_enctype(p, Some(e), 0, None));
    assert(has_client_key(policy, p, requested[i]));
    if is_client_key(policy, p, requested, k) {
        let j = choose|j: int|
            {
                &&& 0 <= j < requested.len()
                &&& policy.knows(requested[j])
                &&& policy.finds_enctype(p, Some(#[trigger] requested[j]), 0, Some(k))
                &&& forall|x: int|
                    0 <= x < j ==> !has_client_key(policy, p, #[trigger] requested[x])
            };
        if i < j {
            assert(!has_client_key(policy, p, requested[i]));
        }
        assert(requested[j] == p.keys@[k as int].etype);
    }
}

/// A database that is out of service is told so, and every other failure of a
/// lookup is a general one.
pub proof fn law_lookup_failure_is_told(
    e: Error,
    looking_up: Status,
    word: Seq<char>,
    r: Error,
)
    requires
        lookup_fault(e, looking_up, word, r),
    ensures
        r matches Error::Protocol { code, text, e_data, .. } && text == Some(looking_up) && e_data
            is None && (code == SVC_UNAVAILABLE || code == GENERIC) && (code == SVC_UNAVAILABLE
            <==> (e matches Error::Protocol { code: c, .. } && c == SVC_UNAVAILABLE)),
{
}

/// A request is judged further exactly where it has no FAST option that is
/// unknown and critical, is for this realm, and names a client.
pub proof fn law_request_is_for_this_realm(
    realm: Seq<char>,
    body: KdcReqBody,
    fast: Option<&FastFacts>,
)
    ensures
        as_early_refusal(realm, body, fast) is None <==> {
            &&& body.realm@ == realm
            &&& body.cname is Some
            &&& fast matches Some(f) ==> !unknown_critical_option(f.options@)
        },
{
}

/// A ticket names its client as the request does, unless that is an enterprise
/// name or is to be made canonical: then as the entry does.
pub proof fn law_client_is_named(body: KdcReqBody, entry: NameView)
    requires
        body.cname is Some,
    ensures
        body.kdc_options.has(CANONICALIZE as int) ==> as_client_name(body, entry) == entry,
        body.cname->0@.name_type == NT_ENTERPRISE ==> as_client_name(body, entry) == entry,
        !body.kdc_options.has(CANONICALIZE as int) && body.cname->0@.name_type != NT_ENTERPRISE
            ==> as_client_name(body, entry) == body.cname->0@,
{
}

/// A request that policy lets through, with a type that can be the session key's
/// and one of which the client has a key, is taken up for the client and the
/// server found.
pub proof fn law_found_request_is_taken_up(
    policy: Policy,
    realm: Seq<char>,
    body: KdcReqBody,
    client: Principal,
    server: Principal,
    session_enctypes: Option<Seq<i32>>,
    no_padata: bool,
    hint: Vec<u8>,
    lockout: Lockout,
    now: u32,
    r: Result<AsLookup, Error>,
    i: int,
)
    requires
        spec_validate_as_request(
            policy,
            realm,
            client,
            (crate::issue::tgs_policy::ServerTerms {
                attributes: server.attributes,
                expiration: server.expiration,
            }),
            body,
            lockout,
            now,
        ) is Ok,
        0 <= i < body.etype@.len(),
        session_enctype_ok(policy, server, session_enctypes, body.etype@[i]),
        !no_client_key(policy, client, body.etype@),
        as_found_result(
            policy,
            realm,
            body,
            client,
            server,
            session_enctypes,
            no_padata,
            hint,
            lockout,
            now,
            r,
        ),
    ensures
        r matches Ok(l) && *l.client == client && *l.server == server && session_enctype_ok(
            policy,
            server,
            session_enctypes,
            l.session_etype,
        ) && body.etype@.contains(l.session_etype),
{
    if r is Err {
        assert(!session_enctype_ok(policy, server, session_enctypes, body.etype@[i]) || no_client_key(
            policy,
            client,
            body.etype@,
        ));
    }
}

/// A client without a key that was asked for is told which pre-authentication it
/// can do where it must do one and has not tried, and else that there is no key.
pub proof fn law_keyless_client_is_told(
    policy: Policy,
    realm: Seq<char>,
    body: KdcReqBody,
    client: Principal,
    server: Principal,
    session_enctypes: Option<Seq<i32>>,
    no_padata: bool,
    hint: Vec<u8>,
    lockout: Lockout,
    now: u32,
    r: Result<AsLookup, Error>,
    i: int,
)
    requires
        spec_validate_as_request(
            policy,
            realm,
            client,
            server_terms(server),
            body,
            lockout,
            now,
        ) is Ok,
        0 <= i < body.etype@.len(),
        session_enctype_ok(policy, server, session_enctypes, body.etype@[i]),
        no_client_key(policy, client, body.etype@),
        as_found_result(
            policy,
            realm,
            body,
            client,
            server,
            session_enctypes,
            no_padata,
            hint,
            lockout,
            now,
            r,
        ),
    ensures
        client.requires_preauth && no_padata ==> (r matches Err(e) && e == (
        Error::PreauthRequired { e_data: hint })),
        !client.requires_preauth || !no_padata ==> (r matches Err(e) && e == refusal(
            ETYPE_NOSUPP,
            Status::CantFindClientKey,
        )),
{
    if let Ok(l) = r {
        let j = choose|j: int|
            {
                &&& 0 <= j < body.etype@.len()
                &&& policy.knows(body.etype@[j])
                &&& policy.finds_enctype(client, Some(#[trigger] body.etype@[j]), 0, Some(l.ckey))
                &&& forall|x: int|
                    0 <= x < j ==> !has_client_key(policy, client, #[trigger] body.etype@[x])
            };
        assert(!has_client_key(policy, client, body.etype@[j]));
        crate::store::lemma_finds_enctype_unique(
            policy,
            client,
            Some(body.etype@[j]),
            0,
            Some(l.ckey),
            None,
        );
    }
}

/// Each indicator is there once: adding keeps those that are there, in their
/// places, and adds exactly those that are not.
pub proof fn law_indicators_are_added_once(
    v: Seq<Seq<char>>,
    xs: Seq<Seq<char>>,
    x: Seq<char>,
)
    ensures
        with_indicators(v, xs).contains(x) <==> v.contains(x) || xs.contains(x),
        v.is_prefix_of(with_indicators(v, xs)),
        v.no_duplicates() ==> with_indicators(v, xs).no_duplicates(),
    decreases xs.len(),
{
    if xs.len() > 0 {
        let t = xs.drop_last();
        let y = xs.last();
        law_indicators_are_added_once(v, t, x);
        let w = with_indicators(v, t);
        assert(t.push(y) =~= xs);
        if xs.contains(x) {
            let i = choose|i: int| 0 <= i < xs.len() && xs[i] == x;
            if i < t.len() {
                assert(t[i] == x);
            }
        }
        if t.contains(x) {
            let i = choose|i: int| 0 <= i < t.len() && t[i] == x;
            assert(xs[i] == x);
        }
        assert(xs[xs.len() - 1] == y);
        if !w.contains(y) {
            let z = w.push(y);
            assert(z[w.len() as int] == y);
            if w.contains(x) {
                let i = choose|i: int| 0 <= i < w.len() && w[i] == x;
                assert(z[i] == x);
            }
            assert(z.subrange(0, v.len() as int) =~= w.subrange(0, v.len() as int));
        }
    } else {
        assert(v.subrange(0, v.len() as int) =~= v);
    }
}

/// A failed or expired pre-authentication that carries no data goes out as failed
/// with the list of types; every other error as it is.
pub proof fn law_failure_brings_the_list(e: Error, hint: Vec<u8>)
    ensures
        e matches Error::Protocol { code, text, e_data, detail } ==> (code == 24 || code == 90)
            && e_data is None ==> with_hint(e, hint) == (Error::Protocol {
            code: 24,
            text,
            e_data: Some(hint),
            detail,
        }),
        e matches Error::Protocol { code, e_data, .. } ==> (code != 24 && code != 90) || e_data
            is Some ==> with_hint(e, hint) == e,
        !(e is Protocol) ==> with_hint(e, hint) == e,
{
}

/// Putting cookies last loses nothing, adds nothing and changes no other order:
/// one more datum comes behind those of its kind.
pub proof fn law_cookie_goes_last(v: Seq<PaData>, x: PaData)
    ensures
        cookie_last(v).len() == v.len(),
        x.padata_type == PA_FX_COOKIE ==> cookie_last(v.push(x)) == cookie_last(v).push(x),
        x.padata_type != PA_FX_COOKIE ==> cookies(v.push(x), false) == cookies(v, false).push(x)
            && cookies(v.push(x), true) == cookies(v, true),
        forall|i: int|
            0 <= i < cookies(v, false).len() ==> (#[trigger] cookies(v, false)[i]).padata_type
                != PA_FX_COOKIE,
        forall|i: int|
            0 <= i < cookies(v, true).len() ==> (#[trigger] cookies(v, true)[i]).padata_type
                == PA_FX_COOKIE,
    decreases v.len(),
{
    assert(v.push(x).drop_last() =~= v);
    assert(x.padata_type == PA_FX_COOKIE ==> cookie_last(v.push(x)) =~= cookie_last(v).push(x));
    if v.len() > 0 {
        law_cookie_goes_last(v.drop_last(), x);
    }
}

/// Pre-authentication lets a request through exactly where it has no encrypted
/// challenge outside FAST, no anonymity for a named client, a module authenticated
/// the client or its encrypted challenge was good and answered, or neither was
/// tried and none is required, and the client needs no hardware.
pub proof fn law_preauthentication_is_judged(
    client: Principal,
    req_cname: NameView,
    o: Flags,
    input: PreauthInput,
    sent: Vec<u8>,
)
    ensures
        preauth_refusal(client, req_cname, o, input, sent) is None <==> {
            &&& !input.fast ==> !has_pa(input.padata@, PA_ENCRYPTED_CHALLENGE)
            &&& o.has(ANONYMOUS as int) ==> req_cname.components == seq![
                "WELLKNOWN"@,
                "ANONYMOUS"@,
            ]
            &&& client.attributes & KDB_REQUIRES_HW_AUTH == 0
            &&& match input.module {
                Err(_) => false,
                Ok(Some(PreauthAction::Challenge(_))) => false,
                Ok(Some(_)) => true,
                Ok(None) => if offers_challenge(input) {
                    input.challenge is Ok && input.challenge_reply is Ok
                } else {
                    !client.requires_preauth && !o.has(ANONYMOUS as int)
                },
            }
        },
{
}

/// An attempt is recorded exactly where an encrypted challenge was looked at: as
/// good where it was.
pub proof fn law_challenge_is_recorded(req_cname: NameView, o: Flags, input: PreauthInput)
    requires
        o.has(ANONYMOUS as int) ==> req_cname.is_anonymous(),
    ensures
        recorded_attempt(req_cname, o, input) is Some <==> input.fast && (input.module matches Ok(
            None,
        )) && offers_challenge(input),
        recorded_attempt(req_cname, o, input) matches Some(b) ==> (b <==> input.challenge is Ok),
{
}

/// A client that proved who it is, by a module or by its challenge, is told so;
/// a key that a module made is the reply's, and an anonymous client is named so.
pub proof fn law_preauthentication_is_told(
    policy: Policy,
    ckey: KeyEntry,
    cname: NameView,
    o: Flags,
    input: PreauthInput,
    p: AsPreauth,
)
    requires
        input.module is Ok,
        preauth_accepts(policy, ckey, cname, o, input, p),
    ensures
        p.authenticated <==> input.module->Ok_0 is Some || offers_challenge(input),
        input.module->Ok_0 matches Some(PreauthAction::Pkinit { key, pa, .. }) ==> p.as_rep_key
            == key && p.reply_key_replaced && p.extra_padata@ == seq![pa],
        input.module->Ok_0 matches Some(PreauthAction::SpakeDone(key)) ==> p.as_rep_key == key
            && p.reply_key_replaced,
        input.module->Ok_0 is None || input.module->Ok_0 == Some(PreauthAction::EncTsOk) ==> (
        p.as_rep_key.keytype, p.as_rep_key.keyvalue@) == (ckey.etype, ckey.key@)
            && !p.reply_key_replaced,
        o.has(ANONYMOUS as int) ==> p.cname@.components == seq!["WELLKNOWN"@, "ANONYMOUS"@],
        !o.has(ANONYMOUS as int) ==> p.cname@ == cname,
        input.module->Ok_0 matches Some(PreauthAction::Pkinit { signed, .. }) ==> !signed
            ==> p.indicators@.len() == 0,
{
    assert(views(p.indicators@).len() == p.indicators@.len());
}

/// An initial ticket is renewable where it has a renewal end, pre-authenticated
/// where its client was, never by hardware, and else has the flags of its request.
pub proof fn law_initial_flags(
    i: int,
    o: Flags,
    client: Principal,
    server: Principal,
    authenticated: bool,
    renew_till: Option<u32>,
)
    ensures
        as_flag(RENEWABLE as int, o, client, server, authenticated, renew_till) <==> renew_till
            is Some,
        as_flag(PRE_AUTHENT as int, o, client, server, authenticated, renew_till) <==> authenticated,
        !as_flag(HW_AUTHENT as int, o, client, server, authenticated, renew_till),
        i != RENEWABLE && i != PRE_AUTHENT && i != HW_AUTHENT ==> as_flag(
            i,
            o,
            client,
            server,
            authenticated,
            renew_till,
        ) == ticket_flag(i, o, Some(&client), &server, None),
{
}

/// A ticket is for the server asked for, unless both it and its entry are
/// ticket-granting services and the request lets the name be made canonical.
pub proof fn law_ticket_is_for_the_server(o: Flags, sname: NameView, entry: NameView)
    ensures
        !o.has(CANONICALIZE as int) ==> as_ticket_server(o, sname, entry) == sname,
        sname.components.len() != 2 || sname.components[0] != "krbtgt"@ ==> as_ticket_server(
            o,
            sname,
            entry,
        ) == sname,
        o.has(CANONICALIZE as int) && sname.is_krbtgt() && entry.is_krbtgt() ==> as_ticket_server(
            o,
            sname,
            entry,
        ) == entry,
{
}

/// A ticket is issued exactly where the server and the local ticket-granting
/// service have a permitted current key, the session key was made, the ticket can
/// end, and the policy module agrees.
pub proof fn law_ticket_is_issued(
    policy: Policy,
    body: KdcReqBody,
    client: Principal,
    server: Principal,
    session: Result<AsSession, Error>,
    verdict: Result<(), Error>,
    local_tgt: Result<Option<Principal>, Error>,
    now: u32,
)
    ensures
        as_issue_refusal(
            policy,
            body,
            client,
            server,
            session,
            verdict,
            local_tgt,
            now,
        ) is None <==> {
            &&& !policy.finds_enctype(server, None, 0, None)
            &&& session is Ok
            &&& spec_ticket_endtime(
                &policy,
                spec_start(body, now),
                None,
                body.till,
                Some(&client),
                &server,
            ) is Ok
            &&& verdict is Ok
            &&& local_tgt matches Ok(Some(t)) && !policy.finds_enctype(t, None, 0, None)
        },
        as_issue_refusal(
            policy,
            body,
            client,
            server,
            session,
            verdict,
            local_tgt,
            now,
        ) matches Some(e) ==> !policy.finds_enctype(server, None, 0, None) && session is Ok
            && spec_ticket_endtime(
            &policy,
            spec_start(body, now),
            None,
            body.till,
            Some(&client),
            &server,
        ) is Ok && verdict is Err ==> e == verdict->Err_0,
{
}

/// The list of pre-authentication types offers every module, FAST first of all,
/// and the description of the client's key before any other; older clients get
/// the older description too.
pub proof fn law_list_offers_all(
    modules: Seq<PaData>,
    info: Seq<PaData>,
    freshness: Option<Vec<u8>>,
    cookie: Option<Vec<u8>>,
    x: PaData,
)
    ensures
        modules.contains(x) || info.contains(x) ==> hint_list(
            modules,
            info,
            freshness,
            cookie,
        ).contains(x),
        modules.len() > 0 && modules[0].padata_type == PA_FX_FAST ==> hint_list(
            modules,
            info,
            freshness,
            cookie,
        )[0] == modules[0],
        (modules.len() == 0 || modules[0].padata_type != PA_FX_FAST) && info.len() > 0
            ==> hint_list(modules, info, freshness, cookie)[0] == info[0],
        cookie matches Some(c) ==> hint_list(modules, info, freshness, cookie).last() == (PaData {
            padata_type: PA_FX_COOKIE,
            padata_value: c,
        }),
        hint_list(modules, info, None, None).len() == modules.len() + info.len(),
{
    let l = hint_list(modules, info, freshness, cookie);
    let at: int = if modules.len() > 0 && modules[0].padata_type == PA_FX_FAST {
        1
    } else {
        0
    };
    let n = info.len() as int;
    if modules.contains(x) {
        let i = choose|i: int| 0 <= i < modules.len() && modules[i] == x;
        if i < at {
            assert(l[i] == x);
        } else {
            assert(l[i + n] == x);
        }
    }
    if info.contains(x) {
        let i = choose|i: int| 0 <= i < info.len() && info[i] == x;
        assert(l[at + i] == x);
    }
}

/// A newer client is one that requests a known type other than des3 and rc4, and
/// it is described its key in the newer form alone.
pub proof fn law_newer_client_gets_the_newer_form(
    policy: Policy,
    requested: Seq<i32>,
    info: Vec<u8>,
    info2: Vec<u8>,
)
    ensures
        newer_client(policy, requested) <==> exists|i: int|
            0 <= i < requested.len() && #[trigger] requested[i] != 16 && requested[i] != 23
                && policy.known_enctypes@.contains(requested[i]),
        key_description(true, Some(info), Some(info2)) == seq![
            PaData { padata_type: PA_ETYPE_INFO2, padata_value: info2 },
        ],
        key_description(false, Some(info), Some(info2)) == seq![
            PaData { padata_type: PA_ETYPE_INFO, padata_value: info },
            PaData { padata_type: PA_ETYPE_INFO2, padata_value: info2 },
        ],
{
    if exists|i: int|
        0 <= i < requested.len() && #[trigger] requested[i] != 16 && requested[i] != 23
            && policy.known_enctypes@.contains(requested[i]) {
        let i = choose|i: int|
            0 <= i < requested.len() && #[trigger] requested[i] != 16 && requested[i] != 23
                && policy.known_enctypes@.contains(requested[i]);
        assert(needs_info2(policy, requested[i]));
    }
}

/// An AS request whose client and server were looked up is for this realm, names
/// its client, and has both in the database; one for another realm, without a
/// client, or with either missing is refused.
pub proof fn law_lookup_finds_client_and_server<S: PrincipalRead>(
    store: &S,
    body: KdcReqBody,
    session_enctypes: Option<Seq<i32>>,
    no_padata: bool,
    hint: Vec<u8>,
    word: Seq<char>,
    now: u32,
    r: Result<AsLookup, Error>,
)
    requires
        as_lookup_result(
            store,
            body,
            None,
            session_enctypes,
            no_padata,
            hint,
            word,
            now,
            r,
        ),
    ensures
        body.realm@ != store.realm_view() ==> refuses(
            r,
            C_PRINCIPAL_UNKNOWN,
            Status::ClientNotFound,
        ),
        body.realm@ == store.realm_view() && body.cname is None ==> refuses(
            r,
            C_PRINCIPAL_UNKNOWN,
            Status::NullClient,
        ),
        r matches Ok(l) ==> body.cname is Some && princ_lookup(store, body.cname->0@) == Ok::<
            Option<Principal>,
            Error,
        >(Some(*l.client)) && princ_lookup(store, requested_server(body, store.realm_view()))
            == Ok::<Option<Principal>, Error>(Some(*l.server)),
        body.realm@ == store.realm_view() && body.cname is Some && princ_lookup(
            store,
            body.cname->0@,
        ) == Ok::<Option<Principal>, Error>(None) ==> refuses(
            r,
            C_PRINCIPAL_UNKNOWN,
            Status::ClientNotFound,
        ),
{
}

/// An AS ticket is laid out only where a session key and the local
/// ticket-granting service are there and the policy module does not refuse; what
/// is missing is what is told, in that order.
pub proof fn law_plan_needs_key_and_verdict<
    N: Fn(&String) -> Option<i32>,
    D: Fn(&EncryptionKey, &str, i32) -> Option<EncryptionKey>,
>(
    policy: Policy,
    realm: Seq<char>,
    body: KdcReqBody,
    client: Principal,
    server: Principal,
    sname: NameView,
    pre: AsPreauth,
    padata: Seq<PaData>,
    fast: Option<&FastFacts>,
    made: IssueOutcome,
    session: Result<AsSession, Error>,
    local_tgt: Result<Option<Principal>, Error>,
    now: u32,
    named: N,
    derive: D,
    r: Result<AsPlan, Error>,
)
    requires
        as_plan_result(
            policy,
            realm,
            body,
            client,
            server,
            sname,
            pre,
            padata,
            fast,
            made,
            session,
            local_tgt,
            now,
            named,
            derive,
            r,
        ),
    ensures
        r is Ok ==> session is Ok && made.verdict is Ok && made.authdata is Ok && local_tgt is Ok
            && local_tgt->Ok_0 is Some,
        r matches Ok(p) ==> *p.local_tgt == local_tgt->Ok_0->0,
{
}

/// A KDC signature of an AS ticket is under the current key of the server that is
/// asked for where that is the ticket-granting service of the realm, and else of
/// the local one.
pub proof fn law_signature_is_the_local_services(
    policy: Policy,
    realm: Seq<char>,
    server: Principal,
    sname: NameView,
    local_tgt: Principal,
    k: (i32, Seq<u8>),
)
    requires
        as_kdc_source(policy, realm, server, sname, local_tgt, k),
    ensures
        sname.is_krbtgt_for(realm) ==> is_current_key(policy, server, k),
        !sname.is_krbtgt_for(realm) ==> is_current_key(policy, local_tgt, k),
{
}

/// Late in an AS request, bad authorization data are told first, then missing
/// indicators; nothing else is refused there.
pub proof fn law_late_refusals(
    server: Principal,
    indicators: Seq<String>,
    authdata: Result<(), Error>,
    at: int,
)
    ensures
        authdata matches Err(e) ==> as_late_refusal(server, indicators, authdata, at) == Some(e),
        authdata is Ok ==> (as_late_refusal(server, indicators, authdata, at) is None
            <==> spec_check_indicators(server, indicators, at) is Ok),
{
}

/// A module's challenge is sent on where it is what the modules answered; never
/// for an encrypted challenge outside of a FAST layer, and not where an ordinary
/// client asks to be anonymous.
pub proof fn law_challenge_is_sent_on(req_cname: NameView, o: Flags, input: PreauthInput)
    ensures
        asked_challenge(req_cname, o, input) matches Some(d) ==> input.module == Ok::<
            Option<PreauthAction>,
            Error,
        >(Some(PreauthAction::Challenge(d))),
        !input.fast && has_pa(input.padata@, 138) ==> asked_challenge(req_cname, o, input) is None,
        o.has(ANONYMOUS as int) && !req_cname.is_anonymous() ==> asked_challenge(
            req_cname,
            o,
            input,
        ) is None,
        input.module matches Ok(Some(PreauthAction::Challenge(d))) ==> input.fast && !o.has(
            ANONYMOUS as int,
        ) ==> asked_challenge(req_cname, o, input) == Some(d),
{
}

/// A challenge keeps what it has; the description of the key is put behind it
/// where the client sent no cookie and the challenge has none yet.
pub proof fn law_challenge_describes_the_key(
    method: Seq<PaData>,
    padata: Seq<PaData>,
    info2: Option<Vec<u8>>,
)
    ensures
        completed_challenge(method, padata, info2).take(method.len() as int) == method,
        has_pa(padata, 133) || has_pa(method, 19) || info2 is None ==> completed_challenge(
            method,
            padata,
            info2,
        ) == method,
        info2 matches Some(d) ==> !has_pa(padata, 133) && !has_pa(method, 19)
            ==> completed_challenge(method, padata, info2) == method.push(
            PaData { padata_type: 19, padata_value: d },
        ),
{
    assert(method + Seq::<PaData>::empty() =~= method);
    assert(completed_challenge(method, padata, info2).take(method.len() as int) =~= method);
    if let Some(d) = info2 {
        let one = PaData { padata_type: 19, padata_value: d };
        assert(method + seq![one] =~= method.push(one));
    }
}

/// Pre-authentication that is refused whatever is sent is not accepted, and what
/// is never refused is.
pub proof fn law_refused_preauthentication_is_not_accepted<
    R: Fn(&Vec<u8>) -> Vec<PaData>,
    M: Fn(&Vec<PaData>) -> Option<Vec<u8>>,
>(
    policy: Policy,
    client: Principal,
    ckey: KeyEntry,
    cname: NameView,
    req_cname: NameView,
    o: Flags,
    input: PreauthInput,
    read: R,
    write: M,
    r: Result<AsPreauth, Error>,
)
    requires
        preauth_result(policy, client, ckey, cname, req_cname, o, input, read, write, r),
    ensures
        (forall|sent: Vec<u8>| #[trigger]
            preauth_refusal(client, req_cname, o, input, sent) is Some) ==> r is Err,
        (forall|sent: Vec<u8>| #[trigger]
            preauth_refusal(client, req_cname, o, input, sent) is None) ==> r is Ok,
{
}

} // verus!
