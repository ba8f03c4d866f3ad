//! What a ticket request may ask of the ticket it presents, of the server it
//! names, and of the client it is for.

use crate::ad::s4u::X509User;
use crate::error::{
    proto, refusal, refuses, Error, Status, BADOPTION, CANNOT_POSTDATE, CLIENT_REVOKED,
    C_PRINCIPAL_UNKNOWN, GENERIC, KEY_EXPIRED, MUST_USE_USER2USER, NAME_EXP, NOT_US, POLICY,
    SERVER_NOMATCH, SERVICE_EXP, S_PRINCIPAL_UNKNOWN, TGT_REVOKED, TKT_EXPIRED, TKT_NYV,
};
use crate::flags::{
    Flags, CNAME_IN_ADDL_TKT, ENC_TKT_IN_SKEY, FORWARDABLE, FORWARDED, HW_AUTHENT, INVALID,
    MAY_POSTDATE, POSTDATED, PRE_AUTHENT, PROXIABLE, PROXY, RENEW, RENEWABLE, VALIDATE,
};
use crate::msg::{EncTicketPart, KdcReqBody};
use crate::name::{krbtgt_view, NameView, PrincipalName};
use crate::pac::{pac_client_info_eq, PacFacts};
use crate::store::{
    attr, attr_set, Policy, Principal, TlData, KDB_DISALLOW_ALL_TIX, KDB_DISALLOW_DUP_SKEY,
    KDB_DISALLOW_POSTDATED, KDB_DISALLOW_RENEWABLE, KDB_DISALLOW_SVR, KDB_DISALLOW_TGT_BASED,
    KDB_PWCHANGE_SERVICE, KDB_REQUIRES_HW_AUTH, KDB_REQUIRES_PRE_AUTH, KDB_REQUIRES_PWCHANGE,
    TL_LAST_ADMIN_UNLOCK,
};
use crate::text::str_eq;
use vstd::prelude::*;
use vstd::string::*;

verus! {

/// A request for another form of the ticket it presents: FORWARDED, PROXY,
/// RENEW or VALIDATE.
pub open spec fn non_tgt_option(o: Flags) -> bool {
    o.has(FORWARDED as int) || o.has(PROXY as int) || o.has(RENEW as int) || o.has(VALIDATE as int)
}

fn asks_other_form(o: Flags) -> (r: bool)
    ensures
        r == non_tgt_option(o),
{
    o.bit(FORWARDED) || o.bit(PROXY) || o.bit(RENEW) || o.bit(VALIDATE)
}

/// What the request's options ask of the presented ticket, in the order in
/// which they are judged.
pub open spec fn header_constraints(o: Flags, tkt: EncTicketPart, now: u32) -> Result<(), Error> {
    if o.has(FORWARDED as int) && !tkt.flags.has(FORWARDABLE as int) {
        Err(refusal(BADOPTION, Status::TgtNotForwardable))
    } else if o.has(PROXY as int) && !tkt.flags.has(PROXIABLE as int) {
        Err(refusal(BADOPTION, Status::TgtNotProxiable))
    } else if (o.has(MAY_POSTDATE as int) || o.has(POSTDATED as int)) && !tkt.flags.has(
        MAY_POSTDATE as int,
    ) {
        Err(refusal(BADOPTION, Status::TgtNotPostdatable))
    } else if o.has(VALIDATE as int) && !tkt.flags.has(INVALID as int) {
        Err(refusal(BADOPTION, Status::ValidateValidTicket))
    } else if o.has(RENEW as int) && !tkt.flags.has(RENEWABLE as int) {
        Err(refusal(BADOPTION, Status::TicketNotRenewable))
    } else if tkt.flags.has(INVALID as int) && !o.has(VALIDATE as int) {
        Err(refusal(TKT_NYV, Status::TicketNotValid))
    } else if o.has(VALIDATE as int) && now < tkt.start() {
        Err(refusal(TKT_NYV, Status::NotYetValid))
    } else if o.has(RENEW as int) && !(tkt.renew_till matches Some(t) && now < t) {
        Err(refusal(TKT_EXPIRED, Status::TktExpired))
    } else {
        Ok(())
    }
}

/// What the request asks of the presented ticket's server: the requested
/// server itself for another form of the ticket, else the ticket-granting
/// service of the requested realm.
pub open spec fn server_constraints(
    o: Flags,
    header_sname: NameView,
    header_realm: Seq<char>,
    req_sname: NameView,
    req_realm: Seq<char>,
) -> Result<(), Error> {
    if non_tgt_option(o) {
        if header_sname != req_sname || header_realm != req_realm {
            Err(refusal(SERVER_NOMATCH, Status::RenewServerMismatch))
        } else if o.has(PROXY as int) && req_sname.is_krbtgt() {
            Err(refusal(BADOPTION, Status::CantProxyTgt))
        } else {
            Ok(())
        }
    } else if !header_sname.is_krbtgt() {
        Err(refusal(NOT_US, Status::BadTgsServerName))
    } else if !header_sname.is_krbtgt_for(req_realm) {
        Err(refusal(NOT_US, Status::BadTgsServerInstance))
    } else {
        Ok(())
    }
}

/// The constraints of a TGS request, the presented ticket's before its
/// server's.
pub open spec fn spec_tgs_constraints(
    o: Flags,
    header_sname: NameView,
    header_realm: Seq<char>,
    tkt: EncTicketPart,
    req_sname: NameView,
    req_realm: Seq<char>,
    now: u32,
) -> Result<(), Error> {
    match header_constraints(o, tkt, now) {
        Err(e) => Err(e),
        Ok(()) => server_constraints(o, header_sname, header_realm, req_sname, req_realm),
    }
}

/// Judges a TGS request against the ticket that it presents.
pub fn check_tgs_constraints_skeleton(
    body: &KdcReqBody,
    header_sname: &PrincipalName,
    header_realm: &str,
    enc_tkt: &EncTicketPart,
    req_sname: &PrincipalName,
    req_realm: &str,
    now: u32,
) -> (r: Result<(), Error>)
    ensures
        r == spec_tgs_constraints(
            body.kdc_options,
            header_sname@,
            header_realm@,
            *enc_tkt,
            req_sname@,
            req_realm@,
            now,
        ),
{
    let o = body.kdc_options;
    let f = enc_tkt.flags;
    if o.bit(FORWARDED) && !f.bit(FORWARDABLE) {
        return Err(proto(BADOPTION, Status::TgtNotForwardable));
    }
    if o.bit(PROXY) && !f.bit(PROXIABLE) {
        return Err(proto(BADOPTION, Status::TgtNotProxiable));
    }
    if (o.bit(MAY_POSTDATE) || o.bit(POSTDATED)) && !f.bit(MAY_POSTDATE) {
        return Err(proto(BADOPTION, Status::TgtNotPostdatable));
    }
    if o.bit(VALIDATE) && !f.bit(INVALID) {
        return Err(proto(BADOPTION, Status::ValidateValidTicket));
    }
    if o.bit(RENEW) && !f.bit(RENEWABLE) {
        return Err(proto(BADOPTION, Status::TicketNotRenewable));
    }
    if f.bit(INVALID) && !o.bit(VALIDATE) {
        return Err(proto(TKT_NYV, Status::TicketNotValid));
    }
    if o.bit(VALIDATE) && now < enc_tkt.start_time() {
        return Err(proto(TKT_NYV, Status::NotYetValid));
    }
    if o.bit(RENEW) {
        match enc_tkt.renew_till {
            Some(till) => {
                if till <= now {
                    return Err(proto(TKT_EXPIRED, Status::TktExpired));
                }
            },
            None => {
                return Err(proto(TKT_EXPIRED, Status::TktExpired));
            },
        }
    }
    if asks_other_form(o) {
        if !header_sname.same(req_sname) || !str_eq(header_realm, req_realm) {
            return Err(proto(SERVER_NOMATCH, Status::RenewServerMismatch));
        }
        if o.bit(PROXY) && req_sname.is_krbtgt() {
            return Err(proto(BADOPTION, Status::CantProxyTgt));
        }
    } else {
        if !header_sname.is_krbtgt() {
            return Err(proto(NOT_US, Status::BadTgsServerName));
        }
        if !header_sname.is_krbtgt_for(req_realm) {
            return Err(proto(NOT_US, Status::BadTgsServerInstance));
        }
    }
    Ok(())
}

/// A second ticket, decrypted: its contents, the entry of its server, and
/// what was read from its PAC.
#[derive(Clone, Debug, PartialEq, Eq)]
pub struct SecondTicket {
    /// Contents.
    pub part: EncTicketPart,
    /// Entry of the server it is for.
    pub server: Principal,
    /// Its PAC, where it has one; an unreadable PAC is an error.
    pub pac: Option<Result<PacFacts, Error>>,
}

/// Whether two entries are the same principal.
pub open spec fn same_entry(a: Principal, b: Principal) -> bool {
    a.name@ == b.name@ && a.realm@ == b.realm@
}

/// Whether two entries are the same principal.
pub fn entries_match(a: &Principal, b: &Principal) -> (r: bool)
    ensures
        r == same_entry(*a, *b),
{
    a.name.same(&b.name) && str_eq(a.realm.as_str(), b.realm.as_str())
}

/// A user-to-user request: the second ticket is a TGT of the destination's
/// realm, and its client is the destination.
pub open spec fn spec_tgs_u2u(
    stkt: Option<SecondTicket>,
    client: Result<Option<Principal>, Error>,
    dest: Principal,
) -> Result<(), Error> {
    match stkt {
        None => Err(refusal(BADOPTION, Status::No2ndTkt)),
        Some(st) => if !st.server.name@.is_krbtgt_for(st.server.realm@)
            || !st.server.name@.is_krbtgt_for(dest.realm@) {
            Err(refusal(POLICY, Status::SecondTktNotTgs))
        } else if client is Err {
            Err(client->Err_0)
        } else if client matches Ok(Some(c)) && same_entry(c, dest) {
            Ok(())
        } else {
            Err(refusal(SERVER_NOMATCH, Status::SecondTktMismatch))
        },
    }
}

/// Judges a user-to-user request; `client` is what looking up the second
/// ticket's client brought.
pub fn check_tgs_u2u(
    stkt: &Option<SecondTicket>,
    client: Result<Option<&Principal>, Error>,
    dest: &Principal,
) -> (r: Result<(), Error>)
    ensures
        r == spec_tgs_u2u(*stkt, crate::kdb::fetched(client), *dest),
{
    let st = match stkt {
        Some(st) => st,
        None => {
            return Err(proto(BADOPTION, Status::No2ndTkt));
        },
    };
    if !st.server.name.is_krbtgt_for(st.server.realm.as_str()) || !st.server.name.is_krbtgt_for(
        dest.realm.as_str(),
    ) {
        return Err(proto(POLICY, Status::SecondTktNotTgs));
    }
    match client {
        Err(e) => Err(e),
        Ok(Some(c)) => if entries_match(c, dest) {
            Ok(())
        } else {
            Err(proto(SERVER_NOMATCH, Status::SecondTktMismatch))
        },
        Ok(None) => Err(proto(SERVER_NOMATCH, Status::SecondTktMismatch)),
    }
}

/// What the server's entry asks of a TGS request, in the order in which it
/// is judged.
pub open spec fn spec_policy_flags(
    server: Principal,
    o: Flags,
    header_is_tgt: bool,
    tkt: Flags,
    now: u32,
) -> Result<(), Error> {
    let a = server.attributes;
    if attr_set(a, KDB_DISALLOW_RENEWABLE) && o.has(RENEWABLE as int) {
        Err(refusal(POLICY, Status::NonRenewableTicket))
    } else if attr_set(a, KDB_DISALLOW_POSTDATED) && o.has(MAY_POSTDATE as int) {
        Err(refusal(CANNOT_POSTDATE, Status::NonPostdatableTicket))
    } else if attr_set(a, KDB_DISALLOW_DUP_SKEY) && o.has(ENC_TKT_IN_SKEY as int) {
        Err(refusal(POLICY, Status::DupSkeyDisallowed))
    } else if attr_set(a, KDB_DISALLOW_ALL_TIX) {
        Err(refusal(S_PRINCIPAL_UNKNOWN, Status::ServerLockedOut))
    } else if attr_set(a, KDB_DISALLOW_SVR) && !o.has(ENC_TKT_IN_SKEY as int) {
        Err(refusal(MUST_USE_USER2USER, Status::ServerNotAllowed))
    } else if attr_set(a, KDB_DISALLOW_TGT_BASED) && header_is_tgt {
        Err(refusal(POLICY, Status::TgtBasedNotAllowed))
    } else if attr_set(a, KDB_REQUIRES_HW_AUTH) && !tkt.has(HW_AUTHENT as int) {
        Err(refusal(GENERIC, Status::NoHwPreauth))
    } else if attr_set(a, KDB_REQUIRES_PRE_AUTH) && !tkt.has(PRE_AUTHENT as int) {
        Err(refusal(GENERIC, Status::NoPreauth))
    } else {
        spec_db_times(None, server_terms(server), now)
    }
}

/// Judges a TGS request by the server's entry.
pub fn check_tgs_policy_flags(
    server: &Principal,
    body: &KdcReqBody,
    header_is_tgt: bool,
    tkt: &EncTicketPart,
    now: u32,
) -> (r: Result<(), Error>)
    ensures
        r == spec_policy_flags(*server, body.kdc_options, header_is_tgt, tkt.flags, now),
{
    let o = body.kdc_options;
    if attr(server, KDB_DISALLOW_RENEWABLE) && o.bit(RENEWABLE) {
        return Err(proto(POLICY, Status::NonRenewableTicket));
    }
    if attr(server, KDB_DISALLOW_POSTDATED) && o.bit(MAY_POSTDATE) {
        return Err(proto(CANNOT_POSTDATE, Status::NonPostdatableTicket));
    }
    if attr(server, KDB_DISALLOW_DUP_SKEY) && o.bit(ENC_TKT_IN_SKEY) {
        return Err(proto(POLICY, Status::DupSkeyDisallowed));
    }
    if attr(server, KDB_DISALLOW_ALL_TIX) {
        return Err(proto(S_PRINCIPAL_UNKNOWN, Status::ServerLockedOut));
    }
    if attr(server, KDB_DISALLOW_SVR) && !o.bit(ENC_TKT_IN_SKEY) {
        return Err(proto(MUST_USE_USER2USER, Status::ServerNotAllowed));
    }
    if attr(server, KDB_DISALLOW_TGT_BASED) && header_is_tgt {
        return Err(proto(POLICY, Status::TgtBasedNotAllowed));
    }
    if attr(server, KDB_REQUIRES_HW_AUTH) && !tkt.flags.bit(HW_AUTHENT) {
        return Err(proto(GENERIC, Status::NoHwPreauth));
    }
    if attr(server, KDB_REQUIRES_PRE_AUTH) && !tkt.flags.bit(PRE_AUTHENT) {
        return Err(proto(GENERIC, Status::NoPreauth));
    }
    check_db_times(None, server, now)
}

/// Whether a time of expiry has passed; 0 is never.
pub open spec fn expired(when: u32, now: u32) -> bool {
    when != 0 && now > when
}

/// What the policy of an initial request reads of the server's entry.
pub struct ServerTerms {
    /// Attribute bits.
    pub attributes: u32,
    /// Expiry (0: never).
    pub expiration: u32,
}

/// What the policy of an initial request reads of `server`.
pub open spec fn server_terms(server: Principal) -> ServerTerms {
    ServerTerms { attributes: server.attributes, expiration: server.expiration }
}

/// A server without attributes that never expires.
pub open spec fn no_server() -> ServerTerms {
    ServerTerms { attributes: 0, expiration: 0 }
}

/// Expiry of client, client password and server, and the duty to change the
/// password; the password-changing service takes clients whose password has
/// expired or must be changed.
pub open spec fn spec_db_times(
    client: Option<Principal>,
    server: ServerTerms,
    now: u32,
) -> Result<(), Error> {
    let pwchange = attr_set(server.attributes, KDB_PWCHANGE_SERVICE);
    if client matches Some(c) && expired(c.expiration, now) {
        Err(refusal(NAME_EXP, Status::ClientExpired))
    } else if client matches Some(c) && expired(c.pw_expire, now) && !pwchange {
        Err(refusal(KEY_EXPIRED, Status::ClientKeyExpired))
    } else if expired(server.expiration, now) {
        Err(refusal(SERVICE_EXP, Status::ServiceExpired))
    } else if client matches Some(c) && attr_set(c.attributes, KDB_REQUIRES_PWCHANGE)
        && !pwchange {
        Err(refusal(KEY_EXPIRED, Status::RequiredPwchange))
    } else {
        Ok(())
    }
}

pub open spec fn deref_client(client: Option<&Principal>) -> Option<Principal> {
    match client {
        Some(c) => Some(*c),
        None => None,
    }
}

/// Judges client and server by their times of expiry.
pub fn check_db_times(client: Option<&Principal>, server: &Principal, now: u32) -> (r: Result<
    (),
    Error,
>)
    ensures
        r == spec_db_times(deref_client(client), server_terms(*server), now),
{
    let pwchange = attr(server, KDB_PWCHANGE_SERVICE);
    if let Some(c) = client {
        if c.expiration != 0 && now > c.expiration {
            return Err(proto(NAME_EXP, Status::ClientExpired));
        }
        if c.pw_expire != 0 && now > c.pw_expire && !pwchange {
            return Err(proto(KEY_EXPIRED, Status::ClientKeyExpired));
        }
    }
    if server.expiration != 0 && now > server.expiration {
        return Err(proto(SERVICE_EXP, Status::ServiceExpired));
    }
    if let Some(c) = client {
        if attr(c, KDB_REQUIRES_PWCHANGE) && !pwchange {
            return Err(proto(KEY_EXPIRED, Status::RequiredPwchange));
        }
    }
    Ok(())
}

/// Anonymous clients get nothing but local TGTs where the realm restricts
/// them.
pub open spec fn spec_check_anon(
    policy: Policy,
    realm: Seq<char>,
    client: NameView,
    server: NameView,
) -> Result<(), Error> {
    if policy.restrict_anon && client.is_anonymous() && !server.is_krbtgt_for(realm) {
        Err(refusal(POLICY, Status::AnonymousNotAllowed))
    } else {
        Ok(())
    }
}

/// Judges an anonymous client.
pub fn check_anon(
    policy: &Policy,
    realm: &str,
    client: &PrincipalName,
    server: &PrincipalName,
) -> (r: Result<(), Error>)
    ensures
        r == spec_check_anon(*policy, realm@, client@, server@),
{
    if policy.restrict_anon && client.is_anonymous() && !server.is_krbtgt_for(realm) {
        return Err(proto(POLICY, Status::AnonymousNotAllowed));
    }
    Ok(())
}

/// The place of the first tagged datum of type `ty`, or the length where
/// there is none.
pub open spec fn tl_position(tl: Seq<TlData>, ty: i32) -> int
    decreases tl.len(),
{
    if tl.len() == 0 {
        0
    } else if tl[0].ty == ty {
        0
    } else {
        1 + tl_position(tl.drop_first(), ty)
    }
}

/// The place of the first tagged datum of type `ty`.
pub fn find_tl(tl: &[TlData], ty: i32) -> (r: usize)
    ensures
        r == tl_position(tl@, ty),
        r <= tl.len(),
        r < tl.len() ==> tl@[r as int].ty == ty,
{
    let mut i: usize = 0;
    proof {
        assert(tl@.skip(0) =~= tl@);
    }
    while i < tl.len()
        invariant
            i <= tl.len(),
            tl_position(tl@, ty) == i + tl_position(tl@.skip(i as int), ty),
        decreases tl.len() - i,
    {
        proof {
            assert(tl@.skip(i as int).drop_first() =~= tl@.skip(i + 1));
        }
        if tl[i].ty == ty {
            return i;
        }
        i = i + 1;
    }
    i
}

/// When the client was last unlocked by an administrator; an absent or short
/// record is time 0.
pub open spec fn spec_last_admin_unlock(tl: Seq<TlData>) -> u32 {
    let i = tl_position(tl, TL_LAST_ADMIN_UNLOCK);
    if 0 <= i < tl.len() && tl[i].contents@.len() >= 4 {
        crate::bytes::from_le32(tl[i].contents@, 0)
    } else {
        0
    }
}

/// When the client was last unlocked by an administrator.
pub fn last_admin_unlock(p: &Principal) -> (r: u32)
    ensures
        r == spec_last_admin_unlock(p.tl_data@),
{
    let i = find_tl(p.tl_data.as_slice(), TL_LAST_ADMIN_UNLOCK);
    if i < p.tl_data.len() && p.tl_data[i].contents.len() >= 4 {
        crate::bytes::get_le32(p.tl_data[i].contents.as_slice(), 0)
    } else {
        0
    }
}

/// What is known of a client's failed authentications.
#[derive(Clone, Copy, Debug, PartialEq, Eq, Structural)]
pub struct Lockout {
    /// Failures counted.
    pub fails: u32,
    /// Time of the last failure (0: none).
    pub last_failed: u32,
    /// Failures before lockout (0: no lockout).
    pub max_fail: u32,
    /// Seconds after which the count starts again (0: never).
    pub interval: u32,
    /// Seconds that a lockout lasts (0: until unlocked).
    pub duration: u32,
}

impl Lockout {
    /// The failure count starts again.
    pub open spec fn count_restarts(self, now: u32) -> bool {
        self.interval > 0 && self.last_failed > 0 && now >= self.last_failed.saturating_add(
            self.interval,
        )
    }

    /// The client is locked out.
    pub open spec fn locked(self, unlocked_at: u32, now: u32) -> bool {
        &&& self.max_fail > 0
        &&& self.fails >= self.max_fail
        &&& !self.count_restarts(now)
        &&& self.last_failed > unlocked_at
        &&& self.duration == 0 || now < self.last_failed.saturating_add(self.duration)
    }
}

/// Options that a request for an initial ticket may not have.
pub open spec fn as_invalid_options(o: Flags) -> bool {
    non_tgt_option(o) || o.has(ENC_TKT_IN_SKEY as int) || o.has(CNAME_IN_ADDL_TKT as int)
}

fn has_as_invalid_options(o: Flags) -> (r: bool)
    ensures
        r == as_invalid_options(o),
{
    asks_other_form(o) || o.bit(ENC_TKT_IN_SKEY) || o.bit(CNAME_IN_ADDL_TKT)
}

/// The server that the request names, the local ticket-granting service
/// where it names none.
pub open spec fn requested_server(body: KdcReqBody, realm: Seq<char>) -> NameView {
    match body.sname {
        Some(n) => n@,
        None => krbtgt_view(realm),
    }
}

/// The policy of an initial request, in the order in which it is judged. Of
/// an accepted request the result says whether the client's failure count is
/// to start again.
pub open spec fn spec_validate_as_request(
    policy: Policy,
    realm: Seq<char>,
    client: Principal,
    server: ServerTerms,
    body: KdcReqBody,
    lockout: Lockout,
    now: u32,
) -> Result<bool, Error> {
    let o = body.kdc_options;
    if as_invalid_options(o) {
        Err(refusal(BADOPTION, Status::InvalidAsOptions))
    } else if spec_db_times(Some(client), server, now) is Err {
        Err(spec_db_times(Some(client), server, now)->Err_0)
    } else if (o.has(MAY_POSTDATE as int) || o.has(POSTDATED as int)) && (attr_set(
        client.attributes,
        KDB_DISALLOW_POSTDATED,
    ) || attr_set(server.attributes, KDB_DISALLOW_POSTDATED)) {
        Err(refusal(CANNOT_POSTDATE, Status::PostdateNotAllowed))
    } else if attr_set(client.attributes, KDB_DISALLOW_ALL_TIX) {
        Err(refusal(CLIENT_REVOKED, Status::ClientLockedOut))
    } else if attr_set(server.attributes, KDB_DISALLOW_ALL_TIX) {
        Err(refusal(S_PRINCIPAL_UNKNOWN, Status::ServiceLockedOut))
    } else if attr_set(server.attributes, KDB_DISALLOW_SVR) {
        Err(refusal(MUST_USE_USER2USER, Status::ServiceNotAllowed))
    } else if spec_check_anon(policy, realm, client.name@, requested_server(body, realm)) is Err {
        Err(refusal(POLICY, Status::AnonymousNotAllowed))
    } else if lockout.locked(spec_last_admin_unlock(client.tl_data@), now) {
        Err(refusal(CLIENT_REVOKED, Status::ClientLockedOut))
    } else {
        Ok(lockout.count_restarts(now))
    }
}

/// Judges a request for an initial ticket by policy, before any
/// pre-authentication.
pub fn validate_as_request(
    policy: &Policy,
    realm: &str,
    client: &Principal,
    server: &Principal,
    body: &KdcReqBody,
    lockout: Lockout,
    now: u32,
) -> (r: Result<bool, Error>)
    ensures
        r == spec_validate_as_request(
            *policy,
            realm@,
            *client,
            server_terms(*server),
            *body,
            lockout,
            now,
        ),
{
    let o = body.kdc_options;
    if has_as_invalid_options(o) {
        return Err(proto(BADOPTION, Status::InvalidAsOptions));
    }
    match check_db_times(Some(client), server, now) {
        Ok(()) => {},
        Err(e) => {
            return Err(e);
        },
    }
    if (o.bit(MAY_POSTDATE) || o.bit(POSTDATED)) && (attr(client, KDB_DISALLOW_POSTDATED) || attr(
        server,
        KDB_DISALLOW_POSTDATED,
    )) {
        return Err(proto(CANNOT_POSTDATE, Status::PostdateNotAllowed));
    }
    if attr(client, KDB_DISALLOW_ALL_TIX) {
        return Err(proto(CLIENT_REVOKED, Status::ClientLockedOut));
    }
    if attr(server, KDB_DISALLOW_ALL_TIX) {
        return Err(proto(S_PRINCIPAL_UNKNOWN, Status::ServiceLockedOut));
    }
    if attr(server, KDB_DISALLOW_SVR) {
        return Err(proto(MUST_USE_USER2USER, Status::ServiceNotAllowed));
    }
    let anon = match &body.sname {
        Some(n) => check_anon(policy, realm, &client.name, n),
        None => {
            let n = PrincipalName::krbtgt(realm);
            check_anon(policy, realm, &client.name, &n)
        },
    };
    match anon {
        Ok(()) => {},
        Err(e) => {
            return Err(e);
        },
    }
    let restarts: bool = lockout.interval > 0 && lockout.last_failed > 0 && now
        >= lockout.last_failed.saturating_add(lockout.interval);
    let fails: u32 = if restarts {
        0
    } else {
        lockout.fails
    };
    if lockout.last_failed <= last_admin_unlock(client) {
        return Ok(restarts);
    }
    let in_window: bool = lockout.duration == 0 || (lockout.last_failed > 0 && now
        < lockout.last_failed.saturating_add(lockout.duration));
    if lockout.max_fail > 0 && fails >= lockout.max_fail && in_window {
        return Err(proto(CLIENT_REVOKED, Status::ClientLockedOut));
    }
    Ok(restarts)
}

/// A client whose last failure an administrator has cleared since is never
/// locked out by its failure count.
pub proof fn law_admin_unlock_ends_lockout(lockout: Lockout, unlocked_at: u32, now: u32)
    requires
        lockout.last_failed <= unlocked_at,
    ensures
        !lockout.locked(unlocked_at, now),
{
}

/// A lockout of limited duration ends by itself.
pub proof fn law_lockout_ends(lockout: Lockout, unlocked_at: u32, now: u32)
    requires
        lockout.duration > 0,
        now >= lockout.last_failed + lockout.duration,
    ensures
        !lockout.locked(unlocked_at, now),
{
}

/// Whom a request on behalf of another user is for.
#[derive(Clone, Debug, PartialEq, Eq)]
pub struct S4u2Self {
    /// The user.
    pub user: PrincipalName,
    /// The user's realm.
    pub realm: String,
    /// The user's entry, where the user is local.
    pub local: Option<Principal>,
    /// The PA-S4U-X509-USER that named the user, where one did.
    pub x509: Option<X509User>,
}

/// A request on behalf of another user, judged: options, realms and the
/// header ticket's PAC, then for a local user the policy of an initial
/// request.
pub open spec fn spec_tgs_s4u2self(
    policy: Policy,
    realm: Seq<char>,
    body: KdcReqBody,
    s4u: S4u2Self,
    header_cross: bool,
    is_referral: bool,
    tkt: EncTicketPart,
    header_pac: Option<Result<PacFacts, Error>>,
    lockout: Lockout,
    now: u32,
) -> Result<bool, Error> {
    if as_invalid_options(body.kdc_options) {
        Err(refusal(BADOPTION, Status::InvalidS4u2selfOptions))
    } else if !header_cross && is_referral {
        Err(refusal(S_PRINCIPAL_UNKNOWN, Status::LookingUpServer))
    } else if s4u.local is Some && header_cross && !is_referral {
        Err(refusal(C_PRINCIPAL_UNKNOWN, Status::NotCrossRealmRequest))
    } else if s4u.local is None && !header_cross {
        Err(refusal(POLICY, Status::S4u2selfClientNotOurs))
    } else if s4u.local is None && s4u.user@.components.len() == 0 {
        Err(refusal(POLICY, Status::InvalidXrealmS4u2selfRequest))
    } else {
        match header_pac {
            None => Err(refusal(TGT_REVOKED, Status::S4u2selfNoPac)),
            Some(Err(_)) => Err(refusal(BADOPTION, Status::S4u2selfLocalPacClient)),
            Some(Ok(pac)) => match s4u.local {
                Some(client) => if !pac.names_client(tkt.authtime, tkt.cname@.joined()) {
                    Err(refusal(BADOPTION, Status::S4u2selfLocalPacClient))
                } else {
                    spec_validate_as_request(policy, realm, client, no_server(), body, lockout, now)
                },
                None => if !pac.names_client(
                    tkt.authtime,
                    s4u.user@.joined().push('@') + s4u.realm@,
                ) {
                    Err(refusal(BADOPTION, Status::S4u2selfForeignPacClient))
                } else {
                    Ok(false)
                },
            },
        }
    }
}

/// Judges a request on behalf of another user.
pub fn check_tgs_s4u2self(
    policy: &Policy,
    realm: &str,
    body: &KdcReqBody,
    s4u: &S4u2Self,
    header_cross: bool,
    is_referral: bool,
    enc_tkt: &EncTicketPart,
    header_pac: &Option<Result<PacFacts, Error>>,
    lockout: Lockout,
    now: u32,
) -> (r: Result<bool, Error>)
    ensures
        r == spec_tgs_s4u2self(
            *policy,
            realm@,
            *body,
            *s4u,
            header_cross,
            is_referral,
            *enc_tkt,
            *header_pac,
            lockout,
            now,
        ),
{
    if has_as_invalid_options(body.kdc_options) {
        return Err(proto(BADOPTION, Status::InvalidS4u2selfOptions));
    }
    if !header_cross && is_referral {
        return Err(proto(S_PRINCIPAL_UNKNOWN, Status::LookingUpServer));
    }
    if s4u.local.is_some() && header_cross && !is_referral {
        return Err(proto(C_PRINCIPAL_UNKNOWN, Status::NotCrossRealmRequest));
    }
    if s4u.local.is_none() && !header_cross {
        return Err(proto(POLICY, Status::S4u2selfClientNotOurs));
    }
    if s4u.local.is_none() && s4u.user.name_string.len() == 0 {
        return Err(proto(POLICY, Status::InvalidXrealmS4u2selfRequest));
    }
    let pac = match header_pac {
        None => {
            return Err(proto(TGT_REVOKED, Status::S4u2selfNoPac));
        },
        Some(Err(_)) => {
            return Err(proto(BADOPTION, Status::S4u2selfLocalPacClient));
        },
        Some(Ok(p)) => p,
    };
    match &s4u.local {
        Some(client) => {
            let name = enc_tkt.cname.components_joined();
            if !pac_client_info_eq(pac, enc_tkt.authtime, name.as_str(), None) {
                return Err(proto(BADOPTION, Status::S4u2selfLocalPacClient));
            }
            let nobody = Principal::nobody();
            validate_as_request(policy, realm, client, &nobody, body, lockout, now)
        },
        None => {
            let name = s4u.user.components_joined();
            if !pac_client_info_eq(
                pac,
                enc_tkt.authtime,
                name.as_str(),
                Some(s4u.realm.as_str()),
            ) {
                return Err(proto(BADOPTION, Status::S4u2selfForeignPacClient));
            }
            Ok(false)
        },
    }
}

/// A user-to-user ticket goes to whom its second ticket was issued: where that
/// is a ticket for the ticket-granting service of the destination's realm and
/// its client was found, the request is accepted exactly where the client has
/// the destination's name and realm.
pub proof fn law_second_ticket_is_the_destinations(
    st: SecondTicket,
    client: Principal,
    dest: Principal,
)
    requires
        st.server.name@.components == seq!["krbtgt"@, dest.realm@],
        st.server.realm@ == dest.realm@,
    ensures
        spec_tgs_u2u(Some(st), Ok(Some(client)), dest) is Ok <==> client.name@ == dest.name@
            && client.realm@ == dest.realm@,
        spec_tgs_u2u(Some(st), Ok(Some(client)), dest) is Err ==> refuses(
            spec_tgs_u2u(Some(st), Ok(Some(client)), dest),
            SERVER_NOMATCH,
            Status::SecondTktMismatch,
        ),
        refuses(
            spec_tgs_u2u(Some(st), Ok(None), dest),
            SERVER_NOMATCH,
            Status::SecondTktMismatch,
        ),
        forall|e: Error| #[trigger]
            spec_tgs_u2u(Some(st), Err(e), dest) == Err::<(), Error>(e),
{
}

/// Without a second ticket for the ticket-granting service of the destination's
/// realm a user-to-user request is refused, whoever the client.
pub proof fn law_user_to_user_needs_a_tgt(
    stkt: Option<SecondTicket>,
    client: Result<Option<Principal>, Error>,
    dest: Principal,
)
    ensures
        stkt is None ==> refuses(spec_tgs_u2u(stkt, client, dest), BADOPTION, Status::No2ndTkt),
        stkt matches Some(st) ==> st.server.realm@ != dest.realm@ || st.server.name@.components
            != seq!["krbtgt"@, dest.realm@] ==> refuses(
            spec_tgs_u2u(stkt, client, dest),
            POLICY,
            Status::SecondTktNotTgs,
        ),
{
    if let Some(st) = stkt {
        let n = st.server.name@;
        if n.is_krbtgt_for(st.server.realm@) && n.is_krbtgt_for(dest.realm@) {
            assert(n.components =~= seq!["krbtgt"@, dest.realm@]);
        }
    }
}

/// A presented ticket is fit for a request exactly where it has the flag of
/// each thing asked, is invalid exactly where it is to be validated, and its
/// time has come or is not over.
pub proof fn law_presented_ticket_is_fit(o: Flags, tkt: EncTicketPart, now: u32)
    ensures
        header_constraints(o, tkt, now) is Ok <==> {
            &&& o.has(FORWARDED as int) ==> tkt.flags.has(FORWARDABLE as int)
            &&& o.has(PROXY as int) ==> tkt.flags.has(PROXIABLE as int)
            &&& o.has(MAY_POSTDATE as int) ==> tkt.flags.has(MAY_POSTDATE as int)
            &&& o.has(POSTDATED as int) ==> tkt.flags.has(MAY_POSTDATE as int)
            &&& o.has(VALIDATE as int) <==> tkt.flags.has(INVALID as int)
            &&& o.has(RENEW as int) ==> tkt.flags.has(RENEWABLE as int)
            &&& o.has(VALIDATE as int) ==> (match tkt.starttime {
                Some(s) => s <= now,
                None => tkt.authtime <= now,
            })
            &&& o.has(RENEW as int) ==> (tkt.renew_till matches Some(t) && now < t)
        },
        refuses(header_constraints(o, tkt, now), BADOPTION, Status::TgtNotForwardable) <==> o.has(
            FORWARDED as int,
        ) && !tkt.flags.has(FORWARDABLE as int),
        refuses(header_constraints(o, tkt, now), BADOPTION, Status::TgtNotProxiable) ==> o.has(
            PROXY as int,
        ) && !tkt.flags.has(PROXIABLE as int),
        refuses(header_constraints(o, tkt, now), BADOPTION, Status::TgtNotPostdatable)
            ==> !tkt.flags.has(MAY_POSTDATE as int),
        refuses(header_constraints(o, tkt, now), BADOPTION, Status::ValidateValidTicket) ==> o.has(
            VALIDATE as int,
        ) && !tkt.flags.has(INVALID as int),
        refuses(header_constraints(o, tkt, now), BADOPTION, Status::TicketNotRenewable) ==> o.has(
            RENEW as int,
        ) && !tkt.flags.has(RENEWABLE as int),
        refuses(header_constraints(o, tkt, now), TKT_NYV, Status::TicketNotValid)
            ==> tkt.flags.has(INVALID as int) && !o.has(VALIDATE as int),
        refuses(header_constraints(o, tkt, now), TKT_NYV, Status::NotYetValid) ==> o.has(
            VALIDATE as int,
        ) && tkt.flags.has(INVALID as int),
        refuses(header_constraints(o, tkt, now), TKT_EXPIRED, Status::TktExpired) ==> o.has(
            RENEW as int,
        ) && tkt.flags.has(RENEWABLE as int),
        header_constraints(o, tkt, now) is Err ==> {
            ||| refuses(header_constraints(o, tkt, now), BADOPTION, Status::TgtNotForwardable)
            ||| refuses(header_constraints(o, tkt, now), BADOPTION, Status::TgtNotProxiable)
            ||| refuses(header_constraints(o, tkt, now), BADOPTION, Status::TgtNotPostdatable)
            ||| refuses(header_constraints(o, tkt, now), BADOPTION, Status::ValidateValidTicket)
            ||| refuses(header_constraints(o, tkt, now), BADOPTION, Status::TicketNotRenewable)
            ||| refuses(header_constraints(o, tkt, now), TKT_NYV, Status::TicketNotValid)
            ||| refuses(header_constraints(o, tkt, now), TKT_NYV, Status::NotYetValid)
            ||| refuses(header_constraints(o, tkt, now), TKT_EXPIRED, Status::TktExpired)
        },
{
}

/// Another form of a ticket is given for the server it is for and no other;
/// anything else is given on a ticket for the ticket-granting service of the
/// requested realm.
pub proof fn law_presented_ticket_is_for_the_server(
    o: Flags,
    header_sname: NameView,
    header_realm: Seq<char>,
    req_sname: NameView,
    req_realm: Seq<char>,
)
    ensures
        o.has(FORWARDED as int) || o.has(RENEW as int) || o.has(VALIDATE as int) || o.has(
            PROXY as int,
        ) ==> (server_constraints(
            o,
            header_sname,
            header_realm,
            req_sname,
            req_realm,
        ) is Ok <==> {
            &&& header_sname == req_sname
            &&& header_realm == req_realm
            &&& o.has(PROXY as int) ==> !(req_sname.components.len() == 2
                && req_sname.components[0] == "krbtgt"@)
        }),
        !(o.has(FORWARDED as int) || o.has(RENEW as int) || o.has(VALIDATE as int) || o.has(
            PROXY as int,
        )) ==> (server_constraints(
            o,
            header_sname,
            header_realm,
            req_sname,
            req_realm,
        ) is Ok <==> header_sname.components == seq!["krbtgt"@, req_realm]),
{
    if header_sname.is_krbtgt_for(req_realm) {
        assert(header_sname.components =~= seq!["krbtgt"@, req_realm]);
    }
}

/// A request is constrained by the ticket that it presents and by that
/// ticket's server, and by nothing else.
pub proof fn law_constraints_are_both(
    o: Flags,
    header_sname: NameView,
    header_realm: Seq<char>,
    tkt: EncTicketPart,
    req_sname: NameView,
    req_realm: Seq<char>,
    now: u32,
)
    ensures
        spec_tgs_constraints(
            o,
            header_sname,
            header_realm,
            tkt,
            req_sname,
            req_realm,
            now,
        ) is Ok <==> header_constraints(o, tkt, now) is Ok && server_constraints(
            o,
            header_sname,
            header_realm,
            req_sname,
            req_realm,
        ) is Ok,
{
}

/// A server's entry lets a request through exactly where it forbids nothing
/// that is asked, lacks nothing that it requires, and has not expired.
pub proof fn law_server_entry_decides(
    server: Principal,
    o: Flags,
    header_is_tgt: bool,
    tkt: Flags,
    now: u32,
)
    ensures
        spec_policy_flags(server, o, header_is_tgt, tkt, now) is Ok <==> {
            &&& o.has(RENEWABLE as int) ==> server.attributes & KDB_DISALLOW_RENEWABLE == 0
            &&& o.has(MAY_POSTDATE as int) ==> server.attributes & KDB_DISALLOW_POSTDATED == 0
            &&& o.has(ENC_TKT_IN_SKEY as int) ==> server.attributes & KDB_DISALLOW_DUP_SKEY == 0
            &&& !o.has(ENC_TKT_IN_SKEY as int) ==> server.attributes & KDB_DISALLOW_SVR == 0
            &&& server.attributes & KDB_DISALLOW_ALL_TIX == 0
            &&& header_is_tgt ==> server.attributes & KDB_DISALLOW_TGT_BASED == 0
            &&& !tkt.has(HW_AUTHENT as int) ==> server.attributes & KDB_REQUIRES_HW_AUTH == 0
            &&& !tkt.has(PRE_AUTHENT as int) ==> server.attributes & KDB_REQUIRES_PRE_AUTH == 0
            &&& server.expiration == 0 || now <= server.expiration
        },
        refuses(
            spec_policy_flags(server, o, header_is_tgt, tkt, now),
            SERVICE_EXP,
            Status::ServiceExpired,
        ) ==> server.expiration != 0 && now > server.expiration,
        refuses(
            spec_policy_flags(server, o, header_is_tgt, tkt, now),
            S_PRINCIPAL_UNKNOWN,
            Status::ServerLockedOut,
        ) ==> server.attributes & KDB_DISALLOW_ALL_TIX != 0,
        refuses(
            spec_policy_flags(server, o, header_is_tgt, tkt, now),
            MUST_USE_USER2USER,
            Status::ServerNotAllowed,
        ) ==> server.attributes & KDB_DISALLOW_SVR != 0 && !o.has(ENC_TKT_IN_SKEY as int),
{
}

/// Client and server are good until the second in which they expire, that one
/// counted, and a client whose password has expired or must be changed is good
/// for the password-changing service alone.
pub proof fn law_expiry_decides(client: Option<Principal>, server: ServerTerms, now: u32)
    ensures
        spec_db_times(client, server, now) is Ok <==> {
            &&& server.expiration == 0 || now <= server.expiration
            &&& client matches Some(c) ==> {
                &&& c.expiration == 0 || now <= c.expiration
                &&& server.attributes & KDB_PWCHANGE_SERVICE == 0 ==> {
                    &&& c.pw_expire == 0 || now <= c.pw_expire
                    &&& c.attributes & KDB_REQUIRES_PWCHANGE == 0
                }
            }
        },
        refuses(spec_db_times(client, server, now), NAME_EXP, Status::ClientExpired) <==> (client
            matches Some(c) && c.expiration != 0 && now > c.expiration),
        refuses(spec_db_times(client, server, now), SERVICE_EXP, Status::ServiceExpired)
            ==> server.expiration != 0 && now > server.expiration,
        refuses(spec_db_times(client, server, now), KEY_EXPIRED, Status::ClientKeyExpired)
            ==> (client matches Some(c) && c.pw_expire != 0 && now > c.pw_expire),
        refuses(spec_db_times(client, server, now), KEY_EXPIRED, Status::RequiredPwchange)
            ==> (client matches Some(c) && c.attributes & KDB_REQUIRES_PWCHANGE != 0),
        spec_db_times(client, server, now) is Err ==> {
            ||| refuses(spec_db_times(client, server, now), NAME_EXP, Status::ClientExpired)
            ||| refuses(spec_db_times(client, server, now), KEY_EXPIRED, Status::ClientKeyExpired)
            ||| refuses(spec_db_times(client, server, now), SERVICE_EXP, Status::ServiceExpired)
            ||| refuses(spec_db_times(client, server, now), KEY_EXPIRED, Status::RequiredPwchange)
        },
{
}

/// Where anonymous clients are restricted, `WELLKNOWN/ANONYMOUS` gets the local
/// ticket-granting service and nothing else; every other client, and every
/// client elsewhere, is let through.
pub proof fn law_anonymous_gets_local_tgts(
    policy: Policy,
    realm: Seq<char>,
    client: NameView,
    server: NameView,
)
    ensures
        spec_check_anon(policy, realm, client, server) is Err <==> {
            &&& policy.restrict_anon
            &&& client.components == seq!["WELLKNOWN"@, "ANONYMOUS"@]
            &&& server.components != seq!["krbtgt"@, realm]
        },
        spec_check_anon(policy, realm, client, server) is Err ==> refuses(
            spec_check_anon(policy, realm, client, server),
            POLICY,
            Status::AnonymousNotAllowed,
        ),
{
    if server.is_krbtgt_for(realm) {
        assert(server.components =~= seq!["krbtgt"@, realm]);
    }
}

/// A client that has failed as often as its policy allows is locked out, for as
/// long as the failures count, the lockout lasts and nobody has unlocked it;
/// and no client is locked out otherwise.
pub proof fn law_failures_lock_out(lockout: Lockout, unlocked_at: u32, now: u32)
    requires
        lockout.last_failed + lockout.interval <= u32::MAX,
        lockout.last_failed + lockout.duration <= u32::MAX,
    ensures
        lockout.count_restarts(now) <==> lockout.interval != 0 && lockout.last_failed != 0 && now
            - lockout.last_failed >= lockout.interval,
        lockout.locked(unlocked_at, now) <==> {
            &&& lockout.max_fail != 0
            &&& lockout.fails >= lockout.max_fail
            &&& lockout.last_failed > unlocked_at
            &&& lockout.interval == 0 || now - lockout.last_failed < lockout.interval
            &&& lockout.duration == 0 || now - lockout.last_failed < lockout.duration
        },
{
}

/// The time of the last administrative unlock is the four octets, least
/// significant first, at the start of the first datum of that type, whatever
/// stands before or behind it.
pub proof fn law_unlock_time_is_read(
    before: Seq<TlData>,
    item: TlData,
    behind: Seq<TlData>,
    rest: Seq<u8>,
    time: u32,
)
    requires
        forall|i: int| 0 <= i < before.len() ==> (#[trigger] before[i]).ty != TL_LAST_ADMIN_UNLOCK,
        item.ty == TL_LAST_ADMIN_UNLOCK,
        item.contents@ == crate::bytes::le32(time) + rest,
    ensures
        spec_last_admin_unlock(before + seq![item] + behind) == time,
        spec_last_admin_unlock(before) == 0,
    decreases before.len(),
{
    let all = before + seq![item] + behind;
    if before.len() == 0 {
        assert(all[0] == item);
        lemma_tl_position(all, TL_LAST_ADMIN_UNLOCK);
        crate::bytes::lemma_le32_round_trip(time);
        assert(item.contents@.take(4) =~= crate::bytes::le32(time));
        assert(crate::bytes::from_le32(item.contents@, 0) == crate::bytes::from_le32(
            crate::bytes::le32(time),
            0,
        ));
    } else {
        let t = before.drop_first();
        assert forall|i: int| 0 <= i < t.len() implies (#[trigger] t[i]).ty
            != TL_LAST_ADMIN_UNLOCK by {
            assert(t[i] == before[i + 1]);
        }
        law_unlock_time_is_read(t, item, behind, rest, time);
        assert(all[0] == before[0]);
        assert(all.drop_first() =~= t + seq![item] + behind);
        let more = t + seq![item] + behind;
        let i = tl_position(more, TL_LAST_ADMIN_UNLOCK);
        lemma_tl_position(more, TL_LAST_ADMIN_UNLOCK);
        lemma_tl_position(t, TL_LAST_ADMIN_UNLOCK);
        lemma_tl_position(before, TL_LAST_ADMIN_UNLOCK);
        assert(more[t.len() as int] == item);
        assert(all[i + 1] == more[i]);
    }
}

/// `tl_position` is the first datum of the type, or the length.
proof fn lemma_tl_position(tl: Seq<TlData>, ty: i32)
    ensures
        0 <= tl_position(tl, ty) <= tl.len(),
        tl_position(tl, ty) < tl.len() ==> tl[tl_position(tl, ty)].ty == ty,
        forall|k: int| 0 <= k < tl_position(tl, ty) ==> (#[trigger] tl[k]).ty != ty,
    decreases tl.len(),
{
    if tl.len() > 0 && tl[0].ty != ty {
        let t = tl.drop_first();
        lemma_tl_position(t, ty);
        assert forall|k: int| 0 <= k < tl_position(tl, ty) implies (#[trigger] tl[k]).ty != ty by {
            if k > 0 {
                assert(t[k - 1] == tl[k]);
            }
        }
    }
}

/// A request for an initial ticket is let through exactly where it asks for no
/// other form of a ticket, client and server are in force, neither forbids what
/// is asked, and the client is neither anonymous beyond its rights nor locked
/// out; the answer then says whether the failure count starts again.
pub proof fn law_initial_request_is_judged(
    policy: Policy,
    realm: Seq<char>,
    client: Principal,
    server: ServerTerms,
    body: KdcReqBody,
    lockout: Lockout,
    now: u32,
)
    ensures
        ({
            let o = body.kdc_options;
            let r = spec_validate_as_request(policy, realm, client, server, body, lockout, now);
            &&& r is Ok <==> {
                &&& !o.has(FORWARDED as int)
                &&& !o.has(PROXY as int)
                &&& !o.has(RENEW as int)
                &&& !o.has(VALIDATE as int)
                &&& !o.has(ENC_TKT_IN_SKEY as int)
                &&& !o.has(CNAME_IN_ADDL_TKT as int)
                &&& spec_db_times(Some(client), server, now) is Ok
                &&& o.has(MAY_POSTDATE as int) || o.has(POSTDATED as int) ==> {
                    &&& client.attributes & KDB_DISALLOW_POSTDATED == 0
                    &&& server.attributes & KDB_DISALLOW_POSTDATED == 0
                }
                &&& client.attributes & KDB_DISALLOW_ALL_TIX == 0
                &&& server.attributes & KDB_DISALLOW_ALL_TIX == 0
                &&& server.attributes & KDB_DISALLOW_SVR == 0
                &&& body.sname matches Some(n) ==> spec_check_anon(
                    policy,
                    realm,
                    client.name@,
                    n@,
                ) is Ok
                &&& !lockout.locked(spec_last_admin_unlock(client.tl_data@), now)
            }
            &&& r matches Ok(b) ==> b == lockout.count_restarts(now)
            &&& refuses(r, CANNOT_POSTDATE, Status::PostdateNotAllowed) ==> (o.has(
                MAY_POSTDATE as int,
            ) || o.has(POSTDATED as int))
            &&& refuses(r, CLIENT_REVOKED, Status::ClientLockedOut) ==> {
                ||| client.attributes & KDB_DISALLOW_ALL_TIX != 0
                ||| lockout.locked(spec_last_admin_unlock(client.tl_data@), now)
            }
            &&& refuses(r, S_PRINCIPAL_UNKNOWN, Status::ServiceLockedOut) ==> server.attributes
                & KDB_DISALLOW_ALL_TIX != 0
            &&& refuses(r, MUST_USE_USER2USER, Status::ServiceNotAllowed) ==> server.attributes
                & KDB_DISALLOW_SVR != 0
        }),
{
}

/// A request on behalf of a local user is let through exactly where it is local
/// or a referral that comes from another realm, the presented ticket's PAC names
/// that ticket's own client, and the user would get an initial ticket.
pub proof fn law_local_user_is_judged(
    policy: Policy,
    realm: Seq<char>,
    body: KdcReqBody,
    s4u: S4u2Self,
    header_cross: bool,
    is_referral: bool,
    tkt: EncTicketPart,
    header_pac: Option<Result<PacFacts, Error>>,
    lockout: Lockout,
    now: u32,
)
    requires
        s4u.local is Some,
    ensures
        ({
            let r = spec_tgs_s4u2self(
                policy,
                realm,
                body,
                s4u,
                header_cross,
                is_referral,
                tkt,
                header_pac,
                lockout,
                now,
            );
            let v = spec_validate_as_request(
                policy,
                realm,
                s4u.local->0,
                (ServerTerms { attributes: 0, expiration: 0 }),
                body,
                lockout,
                now,
            );
            &&& r is Ok <==> {
                &&& header_cross == is_referral
                &&& header_pac matches Some(Ok(pac)) && pac.names_client(
                    tkt.authtime,
                    tkt.cname@.joined(),
                )
                &&& v is Ok
            }
            &&& r is Ok ==> r == v
        }),
{
}

/// A request on behalf of a user of another realm is let through exactly where
/// it comes from another realm, names the user, and the presented ticket's PAC
/// names that user with the realm.
pub proof fn law_foreign_user_is_judged(
    policy: Policy,
    realm: Seq<char>,
    body: KdcReqBody,
    s4u: S4u2Self,
    header_cross: bool,
    is_referral: bool,
    tkt: EncTicketPart,
    header_pac: Option<Result<PacFacts, Error>>,
    lockout: Lockout,
    now: u32,
)
    requires
        s4u.local is None,
    ensures
        ({
            let o = body.kdc_options;
            let r = spec_tgs_s4u2self(
                policy,
                realm,
                body,
                s4u,
                header_cross,
                is_referral,
                tkt,
                header_pac,
                lockout,
                now,
            );
            &&& r is Ok <==> {
                &&& !o.has(FORWARDED as int)
                &&& !o.has(PROXY as int)
                &&& !o.has(RENEW as int)
                &&& !o.has(VALIDATE as int)
                &&& !o.has(ENC_TKT_IN_SKEY as int)
                &&& !o.has(CNAME_IN_ADDL_TKT as int)
                &&& header_cross
                &&& s4u.user@.components.len() > 0
                &&& header_pac matches Some(Ok(pac)) && pac.names_client(
                    tkt.authtime,
                    s4u.user@.joined() + seq!['@'] + s4u.realm@,
                )
            }
            &&& r matches Ok(b) ==> !b
        }),
{
    assert(s4u.user@.joined().push('@') =~= s4u.user@.joined() + seq!['@']);
}

} // verus!
