//! Ticket flags and ticket times.

use crate::error::{proto, refusal, Error, Status, NEVER_VALID};
use crate::flags::{
    Flags, ANONYMOUS, ENC_PA_REP, FORWARDABLE, FORWARDED, HW_AUTHENT, INITIAL, INVALID,
    MAY_POSTDATE, OK_AS_DELEGATE, POSTDATED, PRE_AUTHENT, PROXIABLE, PROXY, RENEW, RENEWABLE,
    RENEWABLE_OK, VALIDATE,
};
use crate::msg::{EncTicketPart, KdcReqBody};
use crate::store::{
    attr, attr_set, Policy, Principal, KDB_DISALLOW_FORWARDABLE, KDB_DISALLOW_PROXIABLE,
    KDB_DISALLOW_RENEWABLE, KDB_OK_AS_DELEGATE, KDB_OK_TO_AUTH_AS_DELEGATE,
};
use vstd::prelude::*;

verus! {

/// `t` moved by `d` seconds, where that is a representable time.
pub open spec fn spec_add_seconds(t: u32, d: int) -> Option<u32> {
    if 0 <= t + d <= u32::MAX {
        Some((t + d) as u32)
    } else {
        None
    }
}

/// `t` moved by `d` seconds, where that is a representable time.
pub fn add_seconds(t: u32, d: i64) -> (r: Option<u32>)
    ensures
        r == spec_add_seconds(t, d as int),
{
    match (t as i64).checked_add(d) {
        Some(s) => if 0 <= s && s <= u32::MAX as i64 {
            Some(s as u32)
        } else {
            None
        },
        None => None,
    }
}

/// Seconds from `start` to `until`, as a signed 32-bit interval: a longer
/// way forward saturates, a longer way back wraps.
pub open spec fn interval(start: u32, until: u32) -> int {
    let d = until - start;
    if d > i32::MAX {
        i32::MAX as int
    } else if d < i32::MIN {
        d + 0x1_0000_0000
    } else {
        d
    }
}

/// Seconds from `start` to `until`, as a signed 32-bit interval.
pub fn signed_interval(start: u32, until: u32) -> (r: i64)
    ensures
        r == interval(start, until),
{
    let d: i64 = until as i64 - start as i64;
    if d > i32::MAX as i64 {
        i32::MAX as i64
    } else if d < i32::MIN as i64 {
        d + 0x1_0000_0000
    } else {
        d
    }
}

/// `life` limited by `limit`, where 0 is no limit.
pub open spec fn capped(life: int, limit: u64) -> int {
    if limit > 0 && limit < life {
        limit as int
    } else {
        life
    }
}

fn cap_life(life: i64, limit: u64) -> (r: i64)
    requires
        life <= i32::MAX,
    ensures
        r == capped(life as int, limit),
        r <= i32::MAX,
{
    if limit > 0 && life > 0 && limit < life as u64 {
        limit as i64
    } else {
        life
    }
}

/// Whether the server or the client forbids a kind of ticket.
pub open spec fn disallowed(bit: u32, client: Option<&Principal>, server: &Principal) -> bool {
    ||| attr_set(server.attributes, bit)
    ||| (client matches Some(c) && attr_set(c.attributes, bit))
}

fn either_disallows(bit: u32, client: Option<&Principal>, server: &Principal) -> (r: bool)
    ensures
        r == disallowed(bit, client, server),
{
    if attr(server, bit) {
        return true;
    }
    match client {
        Some(c) => attr(c, bit),
        None => false,
    }
}

/// Whether bit `i` is set in the flags of the ticket issued for a request
/// with options `req`, given the header ticket's flags where there is one.
pub open spec fn ticket_flag(
    i: int,
    req: Flags,
    client: Option<&Principal>,
    server: &Principal,
    header: Option<Flags>,
) -> bool {
    if header is Some && (req.has(VALIDATE as int) || req.has(RENEW as int)) {
        i != INVALID && header->0.has(i)
    } else if i == FORWARDABLE {
        &&& req.has(i)
        &&& header matches Some(h) ==> h.has(i)
        &&& !disallowed(KDB_DISALLOW_FORWARDABLE, client, server)
    } else if i == PROXIABLE {
        &&& req.has(i)
        &&& header matches Some(h) ==> h.has(i)
        &&& !disallowed(KDB_DISALLOW_PROXIABLE, client, server)
    } else if i == FORWARDED || i == PROXY {
        req.has(i) || (header matches Some(h) && h.has(i))
    } else if i == MAY_POSTDATE || i == POSTDATED {
        req.has(i)
    } else if i == ANONYMOUS {
        match header {
            Some(h) => h.has(i),
            None => req.has(i),
        }
    } else if i == PRE_AUTHENT || i == HW_AUTHENT {
        header matches Some(h) && h.has(i)
    } else if i == OK_AS_DELEGATE {
        header is Some && attr_set(server.attributes, KDB_OK_AS_DELEGATE)
    } else if i == INVALID {
        req.has(POSTDATED as int)
    } else if i == INITIAL {
        header is None
    } else {
        i == ENC_PA_REP
    }
}

/// The flags of the ticket issued for a request with options `req`.
pub fn get_ticket_flags(
    req: Flags,
    client: Option<&Principal>,
    server: &Principal,
    header: Option<Flags>,
) -> (r: Flags)
    ensures
        forall|i: int| #[trigger] r.has(i) == ticket_flag(i, req, client, server, header),
{
    if let Some(h) = header {
        if req.bit(VALIDATE) || req.bit(RENEW) {
            return h.with_bit(INVALID, false);
        }
    }
    let mut flags = Flags::none().with_bit(FORWARDABLE, req.bit(FORWARDABLE)).with_bit(
        FORWARDED,
        req.bit(FORWARDED),
    ).with_bit(PROXIABLE, req.bit(PROXIABLE)).with_bit(PROXY, req.bit(PROXY)).with_bit(
        MAY_POSTDATE,
        req.bit(MAY_POSTDATE),
    ).with_bit(POSTDATED, req.bit(POSTDATED)).with_bit(ANONYMOUS, req.bit(ANONYMOUS)).with_bit(
        ENC_PA_REP,
        true,
    ).with_bit(INVALID, req.bit(POSTDATED));
    match header {
        Some(h) => {
            flags = flags.with_bit(FORWARDED, req.bit(FORWARDED) || h.bit(FORWARDED)).with_bit(
                PROXY,
                req.bit(PROXY) || h.bit(PROXY),
            ).with_bit(PRE_AUTHENT, h.bit(PRE_AUTHENT)).with_bit(
                HW_AUTHENT,
                h.bit(HW_AUTHENT),
            ).with_bit(ANONYMOUS, h.bit(ANONYMOUS)).with_bit(
                OK_AS_DELEGATE,
                attr(server, KDB_OK_AS_DELEGATE),
            );
            if !h.bit(PROXIABLE) {
                flags = flags.with_bit(PROXIABLE, false);
            }
            if !h.bit(FORWARDABLE) {
                flags = flags.with_bit(FORWARDABLE, false);
            }
        },
        None => {
            flags = flags.with_bit(INITIAL, true);
        },
    }
    if either_disallows(KDB_DISALLOW_PROXIABLE, client, server) {
        flags = flags.with_bit(PROXIABLE, false);
    }
    if either_disallows(KDB_DISALLOW_FORWARDABLE, client, server) {
        flags = flags.with_bit(FORWARDABLE, false);
    }
    flags
}

/// The latest end that the request and the header ticket leave open.
pub open spec fn latest_end(till: u32, header_end: Option<u32>) -> u32 {
    match header_end {
        Some(h) => if till == 0 || h < till {
            h
        } else {
            till
        },
        None => if till == 0 {
            u32::MAX
        } else {
            till
        },
    }
}

/// Seconds that a ticket lives from `start`.
pub open spec fn ticket_life(
    policy: &Policy,
    start: u32,
    header_end: Option<u32>,
    till: u32,
    client: Option<&Principal>,
    server: &Principal,
) -> int {
    let asked = interval(start, latest_end(till, header_end));
    let by_client = match client {
        Some(c) => capped(asked, c.max_life),
        None => asked,
    };
    capped(capped(by_client, server.max_life), policy.max_life)
}

/// The end of a ticket that starts at `start`: its life later, or ten hours
/// later where that is no representable time.
pub open spec fn spec_ticket_endtime(
    policy: &Policy,
    start: u32,
    header_end: Option<u32>,
    till: u32,
    client: Option<&Principal>,
    server: &Principal,
) -> Result<u32, Error> {
    match spec_add_seconds(start, ticket_life(policy, start, header_end, till, client, server)) {
        Some(t) => Ok(t),
        None => match spec_add_seconds(start, 36_000) {
            Some(t) => Ok(t),
            None => Err(refusal(NEVER_VALID, Status::UnknownReason)),
        },
    }
}

/// The end of a ticket that starts at `starttime`.
pub fn kdc_get_ticket_endtime(
    policy: &Policy,
    starttime: u32,
    header_end: Option<u32>,
    till: u32,
    client: Option<&Principal>,
    server: &Principal,
) -> (r: Result<u32, Error>)
    ensures
        r == spec_ticket_endtime(policy, starttime, header_end, till, client, server),
{
    let until: u32 = match header_end {
        Some(h) => if till == 0 || h < till {
            h
        } else {
            till
        },
        None => if till == 0 {
            u32::MAX
        } else {
            till
        },
    };
    let mut life: i64 = signed_interval(starttime, until);
    if let Some(c) = client {
        life = cap_life(life, c.max_life);
    }
    life = cap_life(life, server.max_life);
    life = cap_life(life, policy.max_life);
    if let Some(t) = add_seconds(starttime, life) {
        return Ok(t);
    }
    match add_seconds(starttime, 36_000) {
        Some(t) => Ok(t),
        None => Err(proto(NEVER_VALID, Status::UnknownReason)),
    }
}

/// A ticket never outlives the ticket it was got with, nor the time asked
/// for, unless the start lies more than 2^31 seconds after that end.
pub proof fn law_ticket_ends_within(
    policy: &Policy,
    start: u32,
    header_end: Option<u32>,
    till: u32,
    client: Option<&Principal>,
    server: &Principal,
)
    requires
        start - latest_end(till, header_end) <= 0x8000_0000,
    ensures
        spec_ticket_endtime(policy, start, header_end, till, client, server) matches Ok(end) ==> {
            &&& (header_end matches Some(h) ==> end <= h)
            &&& (till != 0 ==> end <= till)
        },
{
    let until = latest_end(till, header_end);
    let life = ticket_life(policy, start, header_end, till, client, server);
    assert(life <= until - start);
    if spec_add_seconds(start, life) is None {
        assert(start + life < 0);
        assert(life <= interval(start, until));
        assert(false) by {
            assert(interval(start, until) >= until - start || interval(start, until) == i32::MAX);
            assert(life == interval(start, until) || life >= 0);
        }
    }
}

/// A ticket lives no longer than the client, the server and the realm allow,
/// counted from its start, wherever that end is representable.
pub proof fn law_ticket_life_within_limits(
    policy: &Policy,
    start: u32,
    header_end: Option<u32>,
    till: u32,
    client: Option<&Principal>,
    server: &Principal,
)
    requires
        spec_add_seconds(
            start,
            ticket_life(policy, start, header_end, till, client, server),
        ) is Some,
    ensures
        spec_ticket_endtime(policy, start, header_end, till, client, server) matches Ok(end) && {
            &&& (client matches Some(c) ==> (c.max_life > 0 ==> end - start <= c.max_life))
            &&& (server.max_life > 0 ==> end - start <= server.max_life)
            &&& (policy.max_life > 0 ==> end - start <= policy.max_life)
        },
{
}

/// The renewal end before the lifetime limits, where the ticket is to be
/// renewable at all: what RENEWABLE asks for, or the requested end where
/// RENEWABLE-OK stands in for it.
pub open spec fn asked_renewal(body: &KdcReqBody, endtime: u32) -> Option<u32> {
    if body.kdc_options.has(RENEWABLE as int) {
        Some(
            match body.rtime {
                Some(t) => t,
                None => u32::MAX,
            },
        )
    } else if body.kdc_options.has(RENEWABLE_OK as int) && body.till > endtime {
        Some(body.till)
    } else {
        None
    }
}

pub open spec fn min_u32(a: u32, b: u32) -> u32 {
    if a < b {
        a
    } else {
        b
    }
}

pub open spec fn min_u64(a: u64, b: u64) -> u64 {
    if a < b {
        a
    } else {
        b
    }
}

/// The longest renewable life that server, realm and client allow.
pub open spec fn max_renewable(
    policy: &Policy,
    client: Option<&Principal>,
    server: &Principal,
) -> u64 {
    let s = min_u64(server.max_renewable_life, policy.realm_max_renewable_life);
    match client {
        Some(c) => min_u64(s, c.max_renewable_life),
        None => s,
    }
}

/// The renewal end of the ticket, `None` where it is not renewable.
pub open spec fn spec_renewtime(
    policy: &Policy,
    body: &KdcReqBody,
    header: Option<&EncTicketPart>,
    client: Option<&Principal>,
    server: &Principal,
    starttime: u32,
    endtime: u32,
) -> Option<u32> {
    if disallowed(KDB_DISALLOW_RENEWABLE, client, server) || (header matches Some(h)
        && !h.flags.has(RENEWABLE as int)) {
        None
    } else {
        match asked_renewal(body, endtime) {
            None => None,
            Some(asked) => {
                let by_header = match header {
                    Some(h) => match h.renew_till {
                        Some(t) => min_u32(asked, t),
                        None => asked,
                    },
                    None => asked,
                };
                let r = match spec_add_seconds(
                    starttime,
                    max_renewable(policy, client, server) as int,
                ) {
                    Some(c) => min_u32(by_header, c),
                    None => by_header,
                };
                if body.kdc_options.has(RENEWABLE as int) || r > endtime {
                    Some(r)
                } else {
                    None
                }
            },
        }
    }
}

/// The renewal end of the ticket; RENEWABLE is set in `flags` exactly where
/// there is one.
pub fn kdc_get_ticket_renewtime(
    policy: &Policy,
    body: &KdcReqBody,
    header: Option<&EncTicketPart>,
    client: Option<&Principal>,
    server: &Principal,
    flags: &mut Flags,
    starttime: u32,
    endtime: u32,
) -> (r: Option<u32>)
    ensures
        r == spec_renewtime(policy, body, header, client, server, starttime, endtime),
        forall|i: int|
            #[trigger] final(flags).has(i) == (if i == RENEWABLE {
                r is Some
            } else {
                old(flags).has(i)
            }),
{
    *flags = flags.with_bit(RENEWABLE, false);
    if either_disallows(KDB_DISALLOW_RENEWABLE, client, server) {
        return None;
    }
    if let Some(h) = header {
        if !h.flags.bit(RENEWABLE) {
            return None;
        }
    }
    let mut rsec: u32 = if body.kdc_options.bit(RENEWABLE) {
        match body.rtime {
            Some(t) => t,
            None => u32::MAX,
        }
    } else if body.kdc_options.bit(RENEWABLE_OK) && body.till > endtime {
        body.till
    } else {
        return None;
    };
    if let Some(h) = header {
        if let Some(t) = h.renew_till {
            if t < rsec {
                rsec = t;
            }
        }
    }
    let mut limit: u64 = server.max_renewable_life;
    if policy.realm_max_renewable_life < limit {
        limit = policy.realm_max_renewable_life;
    }
    if let Some(c) = client {
        if c.max_renewable_life < limit {
            limit = c.max_renewable_life;
        }
    }
    if limit <= u32::MAX as u64 {
        if let Some(cap) = add_seconds(starttime, limit as i64) {
            if cap < rsec {
                rsec = cap;
            }
        }
    }
    if !body.kdc_options.bit(RENEWABLE) && rsec <= endtime {
        return None;
    }
    *flags = flags.with_bit(RENEWABLE, true);
    Some(rsec)
}

/// A renewed or derived ticket is never renewable for longer than the ticket
/// it was got with, and never where that ticket was not renewable.
pub proof fn law_renewal_within_header(
    policy: &Policy,
    body: &KdcReqBody,
    header: &EncTicketPart,
    client: Option<&Principal>,
    server: &Principal,
    starttime: u32,
    endtime: u32,
)
    ensures
        spec_renewtime(policy, body, Some(header), client, server, starttime, endtime) matches Some(
            r,
        ) ==> {
            &&& header.flags.has(RENEWABLE as int)
            &&& (header.renew_till matches Some(t) ==> r <= t)
        },
{
}

/// The start field of a reply: left out where it is 0 or the time of initial
/// authentication.
pub open spec fn spec_omit_start(start: u32, auth: u32) -> Option<u32> {
    if start != 0 && start != auth {
        Some(start)
    } else {
        None
    }
}

/// The start field of a reply.
pub fn omit_start_if_auth(start: u32, auth: u32) -> (r: Option<u32>)
    ensures
        r == spec_omit_start(start, auth),
{
    if start != 0 && start != auth {
        Some(start)
    } else {
        None
    }
}

/// FORWARDABLE is cleared in a ticket got for another user, unless the server
/// may get such tickets or has no one to delegate to.
pub open spec fn keeps_forwardable(server: &Principal) -> bool {
    attr_set(server.attributes, KDB_OK_TO_AUTH_AS_DELEGATE) || server.s4u_allowed_to@.len() == 0
}

/// The flags of a ticket got for another user.
pub fn s4u2self_forwardable(server: &Principal, flags: Flags) -> (r: Flags)
    ensures
        forall|i: int|
            #[trigger] r.has(i) == (flags.has(i) && (i == FORWARDABLE ==> keeps_forwardable(
                server,
            ))),
{
    if attr(server, KDB_OK_TO_AUTH_AS_DELEGATE) || server.s4u_allowed_to.len() == 0 {
        return flags;
    }
    flags.with_bit(FORWARDABLE, false)
}

/// When the client's key expires: the earlier of entry and password expiry,
/// where 0 is never.
pub open spec fn spec_key_exp(client: &Principal) -> Option<u32> {
    if client.expiration == 0 && client.pw_expire == 0 {
        None
    } else if client.expiration == 0 {
        Some(client.pw_expire)
    } else if client.pw_expire == 0 {
        Some(client.expiration)
    } else {
        Some(min_u32(client.expiration, client.pw_expire))
    }
}

/// When the client's key expires.
pub fn get_key_exp(client: &Principal) -> (r: Option<u32>)
    ensures
        r == spec_key_exp(client),
{
    let exp: u32 = client.expiration;
    let pw: u32 = client.pw_expire;
    let ts: u32 = if exp == 0 {
        pw
    } else if pw == 0 {
        exp
    } else if exp < pw {
        exp
    } else {
        pw
    };
    if ts != 0 {
        Some(ts)
    } else {
        None
    }
}

/// A ticket that may live at all gets the longest life that is left to it: it
/// ends where the request or the presented ticket ends, or as long after its
/// start as the client, the server or the realm allows, whichever comes first, or
/// 2^31 - 1 seconds after its start.
pub proof fn law_ticket_gets_its_longest_life(
    policy: &Policy,
    start: u32,
    header_end: Option<u32>,
    till: u32,
    client: Option<&Principal>,
    server: &Principal,
)
    requires
        till != 0 ==> start <= till,
        header_end matches Some(h) ==> start <= h,
    ensures
        spec_ticket_endtime(policy, start, header_end, till, client, server) matches Ok(end) && {
            &&& start <= end
            &&& till != 0 ==> end <= till
            &&& header_end matches Some(h) ==> end <= h
            &&& client matches Some(c) ==> c.max_life != 0 ==> end - start <= c.max_life
            &&& server.max_life != 0 ==> end - start <= server.max_life
            &&& policy.max_life != 0 ==> end - start <= policy.max_life
            &&& end - start <= i32::MAX
            &&& {
                ||| till != 0 && end == till
                ||| header_end == Some(end)
                ||| (client matches Some(c) && c.max_life != 0 && end - start == c.max_life)
                ||| server.max_life != 0 && end - start == server.max_life
                ||| policy.max_life != 0 && end - start == policy.max_life
                ||| end - start == i32::MAX
                ||| till == 0 && header_end is None && end == u32::MAX
            }
        },
{
}

/// A time is moved by as many seconds as are asked, or not at all where that
/// leaves the range of times.
pub proof fn law_time_is_moved(t: u32, d: int)
    ensures
        spec_add_seconds(t, d) matches Some(x) ==> x - t == d,
        spec_add_seconds(t, d) is None <==> t + d < 0 || t + d > u32::MAX,
{
}

/// A ticket that is renewed or validated keeps each flag of the presented ticket
/// but INVALID, which it loses.
pub proof fn law_renewed_ticket_keeps_its_flags(
    i: int,
    req: Flags,
    client: Option<&Principal>,
    server: &Principal,
    header: Flags,
)
    requires
        req.has(VALIDATE as int) || req.has(RENEW as int),
    ensures
        i != INVALID ==> ticket_flag(i, req, client, server, Some(header)) == header.has(i),
        !ticket_flag(INVALID as int, req, client, server, Some(header)),
{
}

/// An initial ticket is INITIAL, is what the request asks of it as far as client
/// and server allow, and has nothing that only a presented ticket can hand on; a
/// derived ticket is not INITIAL, hands on what it was got with, and can be
/// forwarded or proxied only where that could.
pub proof fn law_flags_are_asked_or_handed_on(
    req: Flags,
    client: Option<&Principal>,
    server: &Principal,
    header: Option<Flags>,
)
    requires
        !req.has(VALIDATE as int),
        !req.has(RENEW as int),
    ensures
        ticket_flag(INITIAL as int, req, client, server, header) <==> header is None,
        ticket_flag(FORWARDABLE as int, req, client, server, header) <==> {
            &&& req.has(FORWARDABLE as int)
            &&& header matches Some(h) ==> h.has(FORWARDABLE as int)
            &&& server.attributes & KDB_DISALLOW_FORWARDABLE == 0
            &&& client matches Some(c) ==> c.attributes & KDB_DISALLOW_FORWARDABLE == 0
        },
        ticket_flag(PROXIABLE as int, req, client, server, header) <==> {
            &&& req.has(PROXIABLE as int)
            &&& header matches Some(h) ==> h.has(PROXIABLE as int)
            &&& server.attributes & KDB_DISALLOW_PROXIABLE == 0
            &&& client matches Some(c) ==> c.attributes & KDB_DISALLOW_PROXIABLE == 0
        },
        ticket_flag(FORWARDED as int, req, client, server, header) <==> {
            ||| req.has(FORWARDED as int)
            ||| header matches Some(h) && h.has(FORWARDED as int)
        },
        ticket_flag(PROXY as int, req, client, server, header) <==> {
            ||| req.has(PROXY as int)
            ||| header matches Some(h) && h.has(PROXY as int)
        },
        ticket_flag(MAY_POSTDATE as int, req, client, server, header) <==> req.has(
            MAY_POSTDATE as int,
        ),
        ticket_flag(POSTDATED as int, req, client, server, header) <==> req.has(POSTDATED as int),
        ticket_flag(INVALID as int, req, client, server, header) <==> req.has(POSTDATED as int),
        ticket_flag(PRE_AUTHENT as int, req, client, server, header) <==> (header matches Some(h)
            && h.has(PRE_AUTHENT as int)),
        ticket_flag(HW_AUTHENT as int, req, client, server, header) <==> (header matches Some(h)
            && h.has(HW_AUTHENT as int)),
        header matches Some(h) ==> (ticket_flag(ANONYMOUS as int, req, client, server, header)
            <==> h.has(ANONYMOUS as int)),
        header is None ==> (ticket_flag(ANONYMOUS as int, req, client, server, header) <==> req.has(
            ANONYMOUS as int,
        )),
        ticket_flag(OK_AS_DELEGATE as int, req, client, server, header) <==> header is Some
            && server.attributes & KDB_OK_AS_DELEGATE != 0,
        ticket_flag(ENC_PA_REP as int, req, client, server, header),
        !ticket_flag(RENEWABLE as int, req, client, server, header),
{
}

/// A ticket whose renewal was asked for is renewable exactly where neither client
/// nor server forbids it and the presented ticket, if any, is renewable; until
/// the earliest of what was asked, the presented ticket's renewal end, and the
/// longest renewable life that server, realm and client allow.
pub proof fn law_renewal_is_the_earliest(
    policy: &Policy,
    body: &KdcReqBody,
    header: Option<&EncTicketPart>,
    client: Option<&Principal>,
    server: &Principal,
    starttime: u32,
    endtime: u32,
)
    requires
        body.kdc_options.has(RENEWABLE as int),
    ensures
        ({
            let r = spec_renewtime(policy, body, header, client, server, starttime, endtime);
            &&& r is Some <==> {
                &&& server.attributes & KDB_DISALLOW_RENEWABLE == 0
                &&& client matches Some(c) ==> c.attributes & KDB_DISALLOW_RENEWABLE == 0
                &&& header matches Some(h) ==> h.flags.has(RENEWABLE as int)
            }
            &&& r matches Some(t) ==> {
                &&& body.rtime matches Some(a) ==> t <= a
                &&& header matches Some(h) ==> h.renew_till matches Some(a) ==> t <= a
                &&& starttime + server.max_renewable_life <= u32::MAX ==> t - starttime
                    <= server.max_renewable_life
                &&& starttime + policy.realm_max_renewable_life <= u32::MAX ==> t - starttime
                    <= policy.realm_max_renewable_life
                &&& client matches Some(c) ==> starttime + c.max_renewable_life <= u32::MAX
                    ==> t - starttime <= c.max_renewable_life
                &&& {
                    ||| body.rtime == Some(t)
                    ||| (header matches Some(h) && h.renew_till == Some(t))
                    ||| t - starttime == server.max_renewable_life
                    ||| t - starttime == policy.realm_max_renewable_life
                    ||| (client matches Some(c) && t - starttime == c.max_renewable_life)
                    ||| body.rtime is None && t == u32::MAX
                }
            }
        }),
{
}

/// A ticket whose renewal was not asked for is renewable only in place of a
/// longer life: where RENEWABLE-OK says so and the end asked for lies behind the
/// end it gets, and then for longer than it lives, up to the end asked for.
pub proof fn law_renewable_stands_in_for_life(
    policy: &Policy,
    body: &KdcReqBody,
    header: Option<&EncTicketPart>,
    client: Option<&Principal>,
    server: &Principal,
    starttime: u32,
    endtime: u32,
)
    requires
        !body.kdc_options.has(RENEWABLE as int),
    ensures
        spec_renewtime(policy, body, header, client, server, starttime, endtime) matches Some(t)
            ==> {
            &&& body.kdc_options.has(RENEWABLE_OK as int)
            &&& endtime < t <= body.till
            &&& server.attributes & KDB_DISALLOW_RENEWABLE == 0
        },
        body.kdc_options.has(RENEWABLE_OK as int) && header is None && client is None
            && server.attributes & KDB_DISALLOW_RENEWABLE == 0 && endtime < body.till && starttime
            + server.max_renewable_life >= body.till && starttime + policy.realm_max_renewable_life
            >= body.till ==> spec_renewtime(
            policy,
            body,
            header,
            client,
            server,
            starttime,
            endtime,
        ) == Some(body.till),
{
}

/// A reply names the start of a ticket exactly where there is one that is not the
/// time of the initial authentication.
pub proof fn law_start_is_named(start: u32, auth: u32)
    ensures
        spec_omit_start(start, auth) is None <==> start == 0 || start == auth,
        spec_omit_start(start, auth) matches Some(s) ==> s == start,
{
}

/// A key expires when the first of entry and password does, and never where
/// neither does.
pub proof fn law_key_expires_with_the_first(client: &Principal)
    ensures
        spec_key_exp(client) is None <==> client.expiration == 0 && client.pw_expire == 0,
        spec_key_exp(client) matches Some(t) ==> {
            &&& t != 0
            &&& t == client.expiration || t == client.pw_expire
            &&& client.expiration != 0 ==> t <= client.expiration
            &&& client.pw_expire != 0 ==> t <= client.pw_expire
        },
{
}

/// A ticket got for another user stays forwardable exactly where the server may
/// get such tickets, or has no service to delegate to.
pub proof fn law_user_ticket_is_forwardable(server: &Principal)
    ensures
        keeps_forwardable(server) <==> server.attributes & KDB_OK_TO_AUTH_AS_DELEGATE != 0
            || server.s4u_allowed_to@ == Seq::<String>::empty(),
{
    if server.s4u_allowed_to@.len() == 0 {
        assert(server.s4u_allowed_to@ =~= Seq::<String>::empty());
    }
}

} // verus!
