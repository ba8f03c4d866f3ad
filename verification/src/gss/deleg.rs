//! Delegated credentials: what is said of a ticket that is handed on, and what
//! is kept of one that is received.

use crate::gss::error::Error;
use crate::msg::{EncryptedData, EncryptionKey, Ticket, PVNO};
use crate::name::{krbtgt_view, PrincipalName};
use vstd::prelude::*;
use vstd::string::*;

verus! {

/// A ticket to hand on, and what goes with it. Times are seconds since 1970.
#[derive(Clone, Debug, PartialEq, Eq)]
pub struct DelegCred {
    /// The ticket.
    pub ticket: Ticket,
    /// Its session key.
    pub session: EncryptionKey,
    /// Client realm.
    pub crealm: String,
    /// Client.
    pub cname: PrincipalName,
    /// Flags of the ticket.
    pub flags: u32,
    /// Time of initial authentication.
    pub authtime: Option<u32>,
    /// Start.
    pub starttime: Option<u32>,
    /// End.
    pub endtime: Option<u32>,
    /// Renewal end.
    pub renew_till: Option<u32>,
}

/// What a credentials message says of one ticket.
#[derive(Clone, Debug, PartialEq, Eq)]
pub struct CredInfo {
    /// Session key.
    pub key: EncryptionKey,
    /// Client realm.
    pub prealm: Option<String>,
    /// Client.
    pub pname: Option<PrincipalName>,
    /// Flags.
    pub flags: Option<u32>,
    /// Time of initial authentication.
    pub authtime: Option<u32>,
    /// Start.
    pub starttime: Option<u32>,
    /// End.
    pub endtime: Option<u32>,
    /// Renewal end.
    pub renew_till: Option<u32>,
    /// Server realm.
    pub srealm: Option<String>,
    /// Server.
    pub sname: Option<PrincipalName>,
}

/// A text that is there, as characters.
pub open spec fn opt_chars(s: Option<String>) -> Option<Seq<char>> {
    match s {
        Some(t) => Some(t@),
        None => None,
    }
}

/// What a credentials message says of a ticket to hand on, and the ticket: the
/// server is the ticket-granting service of the client's realm.
pub fn cred_info_for_deleg(deleg: DelegCred) -> (r: (CredInfo, Ticket))
    ensures
        r.1 == deleg.ticket,
        is_cred_info(r.0, deleg),
{
    let srealm = deleg.crealm.clone();
    let sname = PrincipalName::krbtgt(deleg.crealm.as_str());
    let info = CredInfo {
        key: deleg.session,
        prealm: Some(deleg.crealm),
        pname: Some(deleg.cname),
        flags: Some(deleg.flags),
        authtime: deleg.authtime,
        starttime: deleg.starttime,
        endtime: deleg.endtime,
        renew_till: deleg.renew_till,
        srealm: Some(srealm),
        sname: Some(sname),
    };
    (info, deleg.ticket)
}

/// Key usage of the sealed part of a credentials message.
pub const KU_KRB_CRED: u32 = 14;

/// Type of a credentials message.
pub const MSG_KRB_CRED: i32 = 22;

/// The sealed part of a credentials message.
#[derive(Clone, Debug, PartialEq, Eq)]
pub struct CredPart {
    /// What is said of each ticket.
    pub ticket_info: Vec<CredInfo>,
    /// Time.
    pub timestamp: u32,
    /// Microseconds of that time.
    pub usec: u32,
}

/// A credentials message.
#[derive(Clone, Debug, PartialEq, Eq)]
pub struct CredMessage {
    /// Protocol version.
    pub pvno: i32,
    /// Message type.
    pub msg_type: i32,
    /// The tickets.
    pub tickets: Vec<Ticket>,
    /// The sealed part.
    pub enc_part: EncryptedData,
}

/// `i` is what a credentials message says of a ticket to hand on: the server is the
/// ticket-granting service of the client's realm.
pub open spec fn is_cred_info(i: CredInfo, d: DelegCred) -> bool {
    &&& i.key == d.session
    &&& i.prealm == Some(d.crealm)
    &&& i.pname == Some(d.cname)
    &&& i.flags == Some(d.flags)
    &&& i.authtime == d.authtime
    &&& i.starttime == d.starttime
    &&& i.endtime == d.endtime
    &&& i.renew_till == d.renew_till
    &&& opt_chars(i.srealm) == Some(d.crealm@)
    &&& i.sname matches Some(n) && n@ == krbtgt_view(d.crealm@)
}

/// `p` is the sealed part of a message with one ticket to hand on.
pub open spec fn is_cred_part(p: CredPart, d: DelegCred, now: (u32, u32)) -> bool {
    &&& p.ticket_info@.len() == 1
    &&& is_cred_info(p.ticket_info@[0], d)
    &&& p.timestamp == now.0
    &&& p.usec == now.1
}

/// `m` is the message with one ticket to hand on, around a sealed part.
pub open spec fn is_cred_message(
    m: CredMessage,
    session: EncryptionKey,
    d: DelegCred,
    cipher: Vec<u8>,
) -> bool {
    &&& m.pvno == PVNO
    &&& m.msg_type == MSG_KRB_CRED
    &&& m.tickets@ == seq![d.ticket]
    &&& m.enc_part == (EncryptedData { etype: session.keytype, kvno: None, cipher })
}

/// `c` is what sealing what is said of a ticket comes to, under a session key.
pub open spec fn cred_sealed<E: Fn(&EncryptionKey, u32, &CredPart) -> Result<Vec<u8>, Error>>(
    session: EncryptionKey,
    d: DelegCred,
    now: (u32, u32),
    seal: E,
    c: Result<Vec<u8>, Error>,
) -> bool {
    exists|p: CredPart|
        is_cred_part(p, d, now) && #[trigger] call_ensures(seal, (&session, KU_KRB_CRED, &p), c)
}

/// What making the message with a ticket to hand on comes to.
pub open spec fn cred_result<
    E: Fn(&EncryptionKey, u32, &CredPart) -> Result<Vec<u8>, Error>,
    W: Fn(&CredMessage) -> Result<Vec<u8>, Error>,
>(
    session: EncryptionKey,
    d: DelegCred,
    now: (u32, u32),
    seal: E,
    encode: W,
    r: Result<Vec<u8>, Error>,
) -> bool {
    exists|c: Result<Vec<u8>, Error>| #[trigger]
        cred_sealed(session, d, now, seal, c) && (match c {
            Err(e) => r == Err::<Vec<u8>, Error>(e),
            Ok(cipher) => exists|m: CredMessage|
                is_cred_message(m, session, d, cipher) && #[trigger] call_ensures(
                    encode,
                    (&m,),
                    r,
                ),
        })
}

/// Makes the message with a ticket to hand on. `seal` seals what is said of it under a
/// key and a usage, and `encode` writes the message.
pub fn krb_cred_for_deleg<
    E: Fn(&EncryptionKey, u32, &CredPart) -> Result<Vec<u8>, Error>,
    W: Fn(&CredMessage) -> Result<Vec<u8>, Error>,
>(session: &EncryptionKey, deleg: DelegCred, now: (u32, u32), seal: &E, encode: &W) -> (r: Result<
    Vec<u8>,
    Error,
>)
    requires
        forall|k: EncryptionKey, u: u32, p: CredPart| #[trigger] call_requires(*seal, (&k, u, &p)),
        forall|m: CredMessage| #[trigger] call_requires(*encode, (&m,)),
    ensures
        cred_result(*session, deleg, now, *seal, *encode, r),
{
    let ghost given = deleg;
    let (info, ticket): (CredInfo, Ticket) = cred_info_for_deleg(deleg);
    let mut ticket_info: Vec<CredInfo> = Vec::new();
    ticket_info.push(info);
    let p = CredPart { ticket_info, timestamp: now.0, usec: now.1 };
    let c = seal(session, KU_KRB_CRED, &p);
    proof {
        assert(is_cred_part(p, given, now));
        assert(cred_sealed(*session, given, now, *seal, c));
    }
    match c {
        Err(e) => Err(e),
        Ok(cipher) => {
            let mut tickets: Vec<Ticket> = Vec::new();
            tickets.push(ticket);
            let m = CredMessage {
                pvno: PVNO,
                msg_type: MSG_KRB_CRED,
                tickets,
                enc_part: EncryptedData { etype: session.keytype, kvno: None, cipher },
            };
            let r = encode(&m);
            proof {
                assert(m.tickets@ =~= seq![given.ticket]);
                assert(is_cred_message(m, *session, given, cipher));
            }
            r
        },
    }
}

/// What a credentials cache keeps of a ticket.
#[derive(Clone, Debug, PartialEq, Eq)]
pub struct CacheEntry {
    /// Client realm.
    pub crealm: String,
    /// Client.
    pub cname: PrincipalName,
    /// Server realm.
    pub srealm: String,
    /// Server.
    pub sname: PrincipalName,
    /// Session key.
    pub key: EncryptionKey,
    /// Time of initial authentication (0: not known).
    pub authtime: u32,
    /// Start (0: not known).
    pub starttime: u32,
    /// End (0: not known).
    pub endtime: u32,
    /// Renewal end (0: none).
    pub renew_till: u32,
    /// Flags (0: not known).
    pub ticket_flags: u32,
    /// The ticket.
    pub ticket: Ticket,
}

/// A time that may not be known.
pub open spec fn time_or_zero(t: Option<u32>) -> u32 {
    match t {
        Some(v) => v,
        None => 0,
    }
}

fn or_zero(t: Option<u32>) -> (r: u32)
    ensures
        r == time_or_zero(t),
{
    match t {
        Some(v) => v,
        None => 0,
    }
}

/// Where a ticket starts: as it says, else with the initial authentication.
pub open spec fn start_of(info: CredInfo) -> u32 {
    match info.starttime {
        Some(t) => t,
        None => time_or_zero(info.authtime),
    }
}

/// What a credentials cache keeps of the first ticket of a credentials
/// message. A server that is not named is the ticket-granting service of the
/// client's realm. The message must name the client and hold a ticket.
pub fn deleg_cache_entry(info: Option<CredInfo>, ticket: Option<Ticket>) -> (r: Result<
    CacheEntry,
    Error,
>)
    ensures
        r is Ok <==> info is Some && ticket is Some && (info->0).prealm is Some && (
        info->0).pname is Some,
        r matches Err(e) ==> e == Error::Truncated,
        r matches Ok(c) ==> {
            let i = info->0;
            &&& c.crealm@ == (i.prealm->0)@
            &&& c.cname@ == (i.pname->0)@
            &&& c.srealm@ == (match i.srealm {
                Some(s) => s@,
                None => (i.prealm->0)@,
            })
            &&& c.sname@ == (match i.sname {
                Some(n) => n@,
                None => krbtgt_view((i.prealm->0)@),
            })
            &&& c.key == i.key
            &&& c.authtime == time_or_zero(i.authtime)
            &&& c.starttime == start_of(i)
            &&& c.endtime == time_or_zero(i.endtime)
            &&& c.renew_till == time_or_zero(i.renew_till)
            &&& c.ticket_flags == time_or_zero(i.flags)
            &&& Some(c.ticket) == ticket
        },
{
    let i = match info {
        None => {
            return Err(Error::Truncated);
        },
        Some(i) => i,
    };
    let t = match ticket {
        None => {
            return Err(Error::Truncated);
        },
        Some(t) => t,
    };
    let prealm = match i.prealm {
        None => {
            return Err(Error::Truncated);
        },
        Some(p) => p,
    };
    let pname = match i.pname {
        None => {
            return Err(Error::Truncated);
        },
        Some(p) => p,
    };
    let srealm = match i.srealm {
        Some(s) => s,
        None => prealm.clone(),
    };
    let sname = match i.sname {
        Some(n) => n,
        None => PrincipalName::krbtgt(prealm.as_str()),
    };
    let starttime: u32 = match i.starttime {
        Some(v) => v,
        None => or_zero(i.authtime),
    };
    Ok(
        CacheEntry {
            crealm: prealm,
            cname: pname,
            srealm,
            sname,
            key: i.key,
            authtime: or_zero(i.authtime),
            starttime,
            endtime: or_zero(i.endtime),
            renew_till: or_zero(i.renew_till),
            ticket_flags: or_zero(i.flags),
            ticket: t,
        },
    )
}

/// A ticket that does not say when it starts starts with its initial
/// authentication.
pub proof fn law_start_of_a_ticket(info: CredInfo)
    ensures
        info.starttime matches Some(t) ==> start_of(info) == t,
        info.authtime matches Some(t) ==> info.starttime is None ==> start_of(info) == t,
        info.starttime is None && info.authtime is None ==> start_of(info) == 0,
{
}

/// What is said of a ticket to hand on is what it is: its client, key, flags and
/// times, for the ticket-granting service of the client's realm.
pub proof fn law_handed_on_ticket_is_described(i: CredInfo, d: DelegCred)
    requires
        is_cred_info(i, d),
    ensures
        i.key == d.session,
        i.prealm == Some(d.crealm) && i.pname == Some(d.cname),
        i.flags == Some(d.flags),
        (i.authtime, i.starttime, i.endtime, i.renew_till) == (
            d.authtime,
            d.starttime,
            d.endtime,
            d.renew_till,
        ),
        i.sname matches Some(n) && n@.is_krbtgt_for(d.crealm@),
        i.srealm matches Some(x) && x@ == d.crealm@,
{
}

/// A credentials message with one ticket says one ticket, and is sealed under a key
/// of the type of the session key.
pub proof fn law_message_has_one_ticket(
    m: CredMessage,
    p: CredPart,
    session: EncryptionKey,
    d: DelegCred,
    now: (u32, u32),
    cipher: Vec<u8>,
)
    requires
        is_cred_message(m, session, d, cipher),
        is_cred_part(p, d, now),
    ensures
        m.pvno == 5 && m.msg_type == 22,
        m.tickets@.len() == p.ticket_info@.len(),
        m.tickets@ == seq![d.ticket],
        m.enc_part.etype == session.keytype && m.enc_part.kvno is None && m.enc_part.cipher
            == cipher,
        (p.timestamp, p.usec) == now,
{
}

} // verus!
