//! The PAC of a new ticket: what it starts from, whom it speaks of and what signs
//! it. What is read, written and summed comes in as functions.

use crate::bytes::copy;
use crate::error::{is_detailed, proto_detail, Error, Status, BAD_INTEGRITY};
use crate::flags::Flags;
use crate::issue::answer_tgs::{subject_has_pac, TgsIssue};
use crate::issue::mint::PacSigner;
use crate::issue::reply::{is_tgs_plan, FastFacts, TgsPlan};
use crate::issue::tgs_req::{TgsRequest, TgsSubject};
use crate::kdb::{is_pac_identity, pac_identity, PacIdentity, PrincipalRead};
use crate::msg::{EncTicketPart, EncryptionKey, PaData};
use crate::name::{NameView, PrincipalName};
use crate::pac::delegation::{extend_delegation, extended_result};
use crate::pac::reply::{copy_buffers, reply_signed, sign_reply_pac, SignInput};
use crate::pac::{
    buffers_view, opt_buffers, opt_octets, pac_contents, str_view, BufferView, DelegationInfo,
    FreshPac, PacBuffer, SignatureForm,
};
use crate::store::Policy;
use crate::text::concat;
use vstd::prelude::*;
use vstd::string::*;

verus! {

/// The PAC that goes on into the new ticket: the second ticket's in a delegation,
/// else the presented one's; none where the request is on behalf of another user.
pub open spec fn spec_subject_pac<'a>(
    subject: TgsSubject,
    header: Option<&'a Vec<PacBuffer>>,
    evidence: Option<&'a Vec<PacBuffer>>,
) -> Option<&'a Vec<PacBuffer>> {
    if subject.s4u2self {
        None
    } else if subject.s4u2proxy {
        evidence
    } else {
        header
    }
}

/// The PAC that goes on into the new ticket.
pub fn subject_pac<'a>(
    subject: &TgsSubject,
    header: Option<&'a Vec<PacBuffer>>,
    evidence: Option<&'a Vec<PacBuffer>>,
) -> (r: Option<&'a Vec<PacBuffer>>)
    ensures
        r == spec_subject_pac(*subject, header, evidence),
{
    if subject.s4u2self {
        None
    } else if subject.s4u2proxy {
        evidence
    } else {
        header
    }
}

/// A delegation gets one more hop: a PAC goes on within the realm.
pub open spec fn adds_hop(subject: TgsSubject) -> bool {
    subject.s4u2proxy && !subject.is_crossrealm && subject.stkt is Some
}

/// `x` is the PAC after one more hop: the target is the server that was asked
/// for, also where the answer is a referral, and the hop is the server of the
/// second ticket with its realm.
pub open spec fn hop_result<
    T: Fn(&PrincipalName) -> String,
    H: Fn(&PrincipalName, &String) -> String,
    R: Fn(&Vec<u8>) -> Result<DelegationInfo, Error>,
    N: Fn(&DelegationInfo) -> Vec<u8>,
>(
    subject: TgsSubject,
    requested: PrincipalName,
    bs: Seq<PacBuffer>,
    unparse: T,
    unparse_with_realm: H,
    read: R,
    write: N,
    x: Result<Vec<PacBuffer>, Error>,
) -> bool {
    let server = subject.stkt->0.server;
    exists|target: String, hop: String|
        {
            &&& #[trigger] call_ensures(unparse, (&requested,), target)
            &&& #[trigger] call_ensures(unparse_with_realm, (&server.name, &server.realm), hop)
            &&& extended_result(bs, target, hop, read, write, x)
        }
}

/// What the PAC of the new ticket starts from: the subject's, in a delegation
/// within the realm with one more hop.
pub open spec fn start_result<
    T: Fn(&PrincipalName) -> String,
    H: Fn(&PrincipalName, &String) -> String,
    R: Fn(&Vec<u8>) -> Result<DelegationInfo, Error>,
    N: Fn(&DelegationInfo) -> Vec<u8>,
>(
    subject: TgsSubject,
    requested: PrincipalName,
    pac: Option<&Vec<PacBuffer>>,
    unparse: T,
    unparse_with_realm: H,
    read: R,
    write: N,
    r: Result<Option<Vec<PacBuffer>>, Error>,
) -> bool {
    match pac {
        None => r == Ok::<Option<Vec<PacBuffer>>, Error>(None),
        Some(bs) if adds_hop(subject) => exists|x: Result<Vec<PacBuffer>, Error>|
            {
                &&& #[trigger] hop_result(
                    subject,
                    requested,
                    bs@,
                    unparse,
                    unparse_with_realm,
                    read,
                    write,
                    x,
                )
                &&& match x {
                    Ok(v) => r == Ok::<Option<Vec<PacBuffer>>, Error>(Some(v)),
                    Err(e) => r == Err::<Option<Vec<PacBuffer>>, Error>(e),
                }
            },
        Some(bs) => r matches Ok(Some(v)) && buffers_view(v@) == buffers_view(bs@),
    }
}

/// Finds what the PAC of a TGS ticket starts from. `unparse` and
/// `unparse_with_realm` write a name, `read` and `write` a delegation buffer.
pub fn tgs_pac_start<
    T: Fn(&PrincipalName) -> String,
    H: Fn(&PrincipalName, &String) -> String,
    R: Fn(&Vec<u8>) -> Result<DelegationInfo, Error>,
    N: Fn(&DelegationInfo) -> Vec<u8>,
>(
    subject: &TgsSubject,
    requested: &PrincipalName,
    header: Option<&Vec<PacBuffer>>,
    evidence: Option<&Vec<PacBuffer>>,
    unparse: &T,
    unparse_with_realm: &H,
    read: &R,
    write: &N,
) -> (r: Result<Option<Vec<PacBuffer>>, Error>)
    requires
        forall|n: PrincipalName| #[trigger] call_requires(*unparse, (&n,)),
        forall|n: PrincipalName, s: String| #[trigger]
            call_requires(*unparse_with_realm, (&n, &s)),
        forall|x: Vec<u8>| #[trigger] call_requires(*read, (&x,)),
        forall|d: DelegationInfo| #[trigger] call_requires(*write, (&d,)),
    ensures
        start_result(
            *subject,
            *requested,
            spec_subject_pac(*subject, header, evidence),
            *unparse,
            *unparse_with_realm,
            *read,
            *write,
            r,
        ),
{
    let bs = match subject_pac(subject, header, evidence) {
        None => {
            return Ok(None);
        },
        Some(bs) => bs,
    };
    let hop: Option<String> = match &subject.stkt {
        Some(st) if subject.s4u2proxy && !subject.is_crossrealm => {
            let h = unparse_with_realm(&st.server.name, &st.server.realm);
            assert(call_ensures(*unparse_with_realm, (&st.server.name, &st.server.realm), h));
            Some(h)
        },
        _ => None,
    };
    match hop {
        Some(h) => {
            let t = unparse(requested);
            assert(call_ensures(*unparse, (requested,), t));
            let x = extend_delegation(bs.as_slice(), t, h, read, write);
            assert(hop_result(
                *subject,
                *requested,
                bs@,
                *unparse,
                *unparse_with_realm,
                *read,
                *write,
                x,
            ));
            match x {
                Ok(v) => Ok(Some(v)),
                Err(e) => Err(e),
            }
        },
        None => Ok(Some(copy_buffers(bs.as_slice()))),
    }
}

/// A plan copies a PAC just where there is one to start from, and marks the
/// delegation just where that one gets one more hop.
pub proof fn law_plan_agrees_with_start(
    p: TgsPlan,
    policy: Policy,
    realm: Seq<char>,
    req: TgsRequest,
    subject: TgsSubject,
    flags: Flags,
    header: Option<&Vec<PacBuffer>>,
    evidence: Option<&Vec<PacBuffer>>,
    subkey: bool,
    padata: Seq<PaData>,
    fast: Option<&FastFacts>,
)
    requires
        is_tgs_plan(
            p,
            policy,
            realm,
            req,
            subject,
            flags,
            subject_has_pac(subject, header is Some),
            subkey,
            padata,
            fast,
        ),
        evidence is Some <==> (subject.stkt matches Some(st) && st.pac is Some),
    ensures
        p.copies_pac == (spec_subject_pac(subject, header, evidence) is Some),
        p.copies_pac ==> p.extends_delegation == adds_hop(subject),
{
}

/// What stands in the log before the fault of logon information.
pub const PAC_LOGON: &'static str = "PAC logon: ";

/// Whom logon information speaks of.
#[derive(Clone, Debug, PartialEq, Eq)]
pub struct LogonIdentity {
    /// Account name.
    pub sam: String,
    /// Relative identifier.
    pub rid: u32,
    /// Octets of the domain's identifier.
    pub domain: Vec<u8>,
}

/// Whom the PAC of a new ticket speaks of.
#[derive(Clone, Debug, PartialEq, Eq)]
pub struct PacSubject {
    /// Account, realm and relative identifier.
    pub identity: PacIdentity,
    /// Octets of the domain's identifier, where it is not the store's.
    pub domain: Option<Vec<u8>>,
}

/// Whom the PAC of a new ticket speaks of: whom the logon information says, else
/// the ticket's client.
pub open spec fn identity_result<
    S: PrincipalRead,
    L: Fn(&Vec<u8>) -> Result<LogonIdentity, String>,
>(
    store: &S,
    part: EncTicketPart,
    logon: Option<&Vec<u8>>,
    identify: L,
    r: Result<PacSubject, Error>,
) -> bool {
    match logon {
        Some(o) => exists|l: Result<LogonIdentity, String>| #[trigger]
            call_ensures(identify, (o,), l) && (match l {
                Err(t) => r matches Err(e) && is_detailed(
                    e,
                    BAD_INTEGRITY,
                    Status::HandleAuthdata,
                    PAC_LOGON@ + t@,
                ),
                Ok(v) => r matches Ok(p) && {
                    &&& p.identity.sam == v.sam
                    &&& p.identity.realm@ == part.crealm@
                    &&& p.identity.rid == v.rid
                    &&& p.domain == Some(v.domain)
                },
            }),
        None => r matches Ok(p) && p.domain is None && is_pac_identity(
            store,
            part.cname@,
            part.crealm@,
            p.identity,
        ),
    }
}

fn find_identity<S: PrincipalRead, L: Fn(&Vec<u8>) -> Result<LogonIdentity, String>>(
    store: &S,
    part: &EncTicketPart,
    logon: Option<&Vec<u8>>,
    identify: &L,
) -> (r: Result<PacSubject, Error>)
    requires
        forall|x: Vec<u8>| #[trigger] call_requires(*identify, (&x,)),
    ensures
        identity_result(store, *part, logon, *identify, r),
{
    match logon {
        Some(o) => {
            let l = identify(o);
            assert(call_ensures(*identify, (o,), l));
            match l {
                Err(t) => Err(
                    proto_detail(
                        BAD_INTEGRITY,
                        Status::HandleAuthdata,
                        concat(PAC_LOGON, t.as_str()),
                    ),
                ),
                Ok(v) => Ok(
                    PacSubject {
                        identity: PacIdentity {
                            sam: v.sam,
                            realm: part.crealm.as_str().to_owned(),
                            rid: v.rid,
                        },
                        domain: Some(v.domain),
                    },
                ),
            }
        },
        None => Ok(
            PacSubject {
                identity: pac_identity(store, &part.cname, part.crealm.as_str()),
                domain: None,
            },
        ),
    }
}

/// The client that a PAC made anew names: the ticket's, where no other is given.
pub open spec fn pac_client_name(cname: NameView, client_info: Option<Seq<char>>) -> Seq<char> {
    match client_info {
        Some(n) => n,
        None => cname.joined(),
    }
}

/// `fresh` gave `f` for this client.
pub open spec fn fresh_made<F: Fn(&PacSubject, u32, &str) -> FreshPac>(
    fresh: F,
    who: PacSubject,
    part: EncTicketPart,
    client_info: Option<Seq<char>>,
    f: FreshPac,
) -> bool {
    exists|n: &str|
        n@ == pac_client_name(part.cname@, client_info) && #[trigger] call_ensures(
            fresh,
            (&who, part.authtime, n),
            f,
        )
}

/// What signing the PAC of a ticket comes to whose subject is known.
pub open spec fn subject_signed<
    F: Fn(&PacSubject, u32, &str) -> FreshPac,
    G: Fn(i32) -> SignatureForm,
    C: Fn(&EncryptionKey, u32, &SignInput) -> Result<Vec<u8>, Error>,
>(
    part: EncTicketPart,
    is_service_tkt: bool,
    start: Option<Seq<BufferView>>,
    logon: Option<Seq<u8>>,
    client_info: Option<Seq<char>>,
    server: EncryptionKey,
    kdc: EncryptionKey,
    ticket: Seq<u8>,
    who: PacSubject,
    fresh: F,
    form: G,
    checksum: C,
    r: Result<Vec<PacBuffer>, Error>,
) -> bool {
    exists|f: FreshPac| #[trigger]
        fresh_made(fresh, who, part, client_info, f) && reply_signed(
            pac_contents(start, logon, f),
            is_service_tkt,
            server,
            kdc,
            ticket,
            form,
            checksum,
            r,
        )
}

/// What stands in an optional list of buffers.
pub open spec fn buffers_in(v: Option<&Vec<PacBuffer>>) -> Option<Seq<BufferView>> {
    match v {
        Some(b) => Some(buffers_view(b@)),
        None => None,
    }
}

/// What optional octets hold.
pub open spec fn octets_in(v: Option<&Vec<u8>>) -> Option<Seq<u8>> {
    match v {
        Some(b) => Some(b@),
        None => None,
    }
}

/// What signing the PAC of a ticket comes to: the ticket is encoded, its subject
/// is found, and what the PAC starts from or a new set of buffers is signed.
pub open spec fn ticket_pac_result<
    S: PrincipalRead,
    E: Fn(&EncTicketPart) -> Result<Vec<u8>, Error>,
    L: Fn(&Vec<u8>) -> Result<LogonIdentity, String>,
    F: Fn(&PacSubject, u32, &str) -> FreshPac,
    G: Fn(i32) -> SignatureForm,
    C: Fn(&EncryptionKey, u32, &SignInput) -> Result<Vec<u8>, Error>,
>(
    store: &S,
    part: EncTicketPart,
    is_service_tkt: bool,
    start: Option<&Vec<PacBuffer>>,
    logon: Option<&Vec<u8>>,
    client_info: Option<Seq<char>>,
    server: EncryptionKey,
    kdc: EncryptionKey,
    encode: E,
    identify: L,
    fresh: F,
    form: G,
    checksum: C,
    r: Result<Vec<PacBuffer>, Error>,
) -> bool {
    exists|der: Result<Vec<u8>, Error>, who: Result<PacSubject, Error>|
        {
            &&& #[trigger] call_ensures(encode, (&part,), der)
            &&& #[trigger] identity_result(store, part, logon, identify, who)
            &&& match (der, who) {
                (Err(e), _) => r matches Err(x) && x == e,
                (Ok(_), Err(e)) => r matches Err(x) && x == e,
                (Ok(d), Ok(p)) => subject_signed(
                    part,
                    is_service_tkt,
                    buffers_in(start),
                    octets_in(logon),
                    client_info,
                    server,
                    kdc,
                    d@,
                    p,
                    fresh,
                    form,
                    checksum,
                    r,
                ),
            }
        }
}

/// Signs the PAC of a ticket whose encoding and subject are known.
fn sign_for_subject<
    F: Fn(&PacSubject, u32, &str) -> FreshPac,
    G: Fn(i32) -> SignatureForm,
    C: Fn(&EncryptionKey, u32, &SignInput) -> Result<Vec<u8>, Error>,
>(
    part: &EncTicketPart,
    is_service_tkt: bool,
    start: Option<&Vec<PacBuffer>>,
    logon: Option<&Vec<u8>>,
    client_info: Option<&str>,
    server: &EncryptionKey,
    kdc: &EncryptionKey,
    ticket: &[u8],
    who: &PacSubject,
    fresh: &F,
    form: &G,
    checksum: &C,
) -> (r: Result<Vec<PacBuffer>, Error>)
    requires
        forall|p: PacSubject, t: u32, n: &str| #[trigger] call_requires(*fresh, (&p, t, n)),
        forall|e: i32| #[trigger] call_requires(*form, (e,)),
        forall|k: EncryptionKey, u: u32, x: SignInput| #[trigger]
            call_requires(*checksum, (&k, u, &x)),
    ensures
        subject_signed(
            *part,
            is_service_tkt,
            buffers_in(start),
            octets_in(logon),
            str_view(client_info),
            *server,
            *kdc,
            ticket@,
            *who,
            *fresh,
            *form,
            *checksum,
            r,
        ),
{
    let own = part.cname.components_joined();
    let name: &str = match client_info {
        Some(n) => n,
        None => own.as_str(),
    };
    let f = fresh(who, part.authtime, name);
    assert(fresh_made(*fresh, *who, *part, str_view(client_info), f));
    let buffers: Option<Vec<PacBuffer>> = match start {
        Some(bs) => Some(copy_buffers(bs.as_slice())),
        None => None,
    };
    let own_logon: Option<Vec<u8>> = match logon {
        Some(o) => Some(copy(o.as_slice())),
        None => None,
    };
    assert(opt_buffers(buffers) == buffers_in(start));
    assert(opt_octets(own_logon) == octets_in(logon));
    sign_reply_pac(buffers, own_logon, f, is_service_tkt, server, kdc, ticket, form, checksum)
}

/// Signs the PAC of a ticket. `part` is the ticket with a blank PAC, `start` what
/// its PAC starts from, where it is not made anew, and `logon` the logon
/// information that it gets. `encode` encodes the ticket, `identify` reads whom
/// logon information speaks of, `fresh` makes a new set of buffers for a subject,
/// a time and a name, `form` gives the form of the signatures of a key type, and
/// `checksum` makes each checksum under a key and a usage.
pub fn sign_ticket_pac<
    S: PrincipalRead,
    E: Fn(&EncTicketPart) -> Result<Vec<u8>, Error>,
    L: Fn(&Vec<u8>) -> Result<LogonIdentity, String>,
    F: Fn(&PacSubject, u32, &str) -> FreshPac,
    G: Fn(i32) -> SignatureForm,
    C: Fn(&EncryptionKey, u32, &SignInput) -> Result<Vec<u8>, Error>,
>(
    store: &S,
    part: &EncTicketPart,
    is_service_tkt: bool,
    start: Option<&Vec<PacBuffer>>,
    logon: Option<&Vec<u8>>,
    client_info: Option<&str>,
    server: &EncryptionKey,
    kdc: &EncryptionKey,
    encode: &E,
    identify: &L,
    fresh: &F,
    form: &G,
    checksum: &C,
) -> (r: Result<Vec<PacBuffer>, Error>)
    requires
        forall|x: EncTicketPart| #[trigger] call_requires(*encode, (&x,)),
        forall|x: Vec<u8>| #[trigger] call_requires(*identify, (&x,)),
        forall|p: PacSubject, t: u32, n: &str| #[trigger] call_requires(*fresh, (&p, t, n)),
        forall|e: i32| #[trigger] call_requires(*form, (e,)),
        forall|k: EncryptionKey, u: u32, x: SignInput| #[trigger]
            call_requires(*checksum, (&k, u, &x)),
    ensures
        ticket_pac_result(
            store,
            *part,
            is_service_tkt,
            start,
            logon,
            str_view(client_info),
            *server,
            *kdc,
            *encode,
            *identify,
            *fresh,
            *form,
            *checksum,
            r,
        ),
{
    let der = encode(part);
    let who = find_identity(store, part, logon, identify);
    assert(call_ensures(*encode, (part,), der));
    assert(identity_result(store, *part, logon, *identify, who));
    match (der, who) {
        (Err(e), _) => Err(e),
        (Ok(_), Err(e)) => Err(e),
        (Ok(d), Ok(p)) => sign_for_subject(
            part,
            is_service_tkt,
            start,
            logon,
            client_info,
            server,
            kdc,
            d.as_slice(),
            &p,
            fresh,
            form,
            checksum,
        ),
    }
}

/// What the PAC of a laid out TGS ticket starts from.
pub open spec fn plan_start<'a>(plan: TgsPlan, start: Option<&'a Vec<PacBuffer>>) -> Option<
    &'a Vec<PacBuffer>,
> {
    if plan.copies_pac {
        start
    } else {
        None
    }
}

/// The client that the PAC of a laid out TGS ticket names.
pub open spec fn plan_client(plan: TgsPlan) -> Option<Seq<char>> {
    match plan.client_info {
        Some(s) => Some(s@),
        None => None,
    }
}

/// What signing the PAC of a laid out TGS ticket comes to.
pub open spec fn tgs_pac_result<
    S: PrincipalRead,
    E: Fn(&EncTicketPart) -> Result<Vec<u8>, Error>,
    L: Fn(&Vec<u8>) -> Result<LogonIdentity, String>,
    F: Fn(&PacSubject, u32, &str) -> FreshPac,
    G: Fn(i32) -> SignatureForm,
    C: Fn(&EncryptionKey, u32, &SignInput) -> Result<Vec<u8>, Error>,
>(
    store: &S,
    plan: TgsPlan,
    part: EncTicketPart,
    is_service_tkt: bool,
    start: Option<&Vec<PacBuffer>>,
    logon: Option<&Vec<u8>>,
    server: EncryptionKey,
    kdc: EncryptionKey,
    encode: E,
    identify: L,
    fresh: F,
    form: G,
    checksum: C,
    r: Result<Vec<PacBuffer>, Error>,
) -> bool {
    ticket_pac_result(
        store,
        part,
        is_service_tkt,
        plan_start(plan, start),
        logon,
        plan_client(plan),
        server,
        kdc,
        encode,
        identify,
        fresh,
        form,
        checksum,
        r,
    )
}

/// Signs the PAC of a TGS ticket that was laid out. `start` is what the PAC starts
/// from, where it is not made anew, and `logon` the logon information of the
/// subject.
pub fn sign_tgs_pac<
    S: PrincipalRead,
    E: Fn(&EncTicketPart) -> Result<Vec<u8>, Error>,
    L: Fn(&Vec<u8>) -> Result<LogonIdentity, String>,
    F: Fn(&PacSubject, u32, &str) -> FreshPac,
    G: Fn(i32) -> SignatureForm,
    C: Fn(&EncryptionKey, u32, &SignInput) -> Result<Vec<u8>, Error>,
>(
    store: &S,
    plan: &TgsPlan,
    part: &EncTicketPart,
    is_service_tkt: bool,
    start: Option<&Vec<PacBuffer>>,
    logon: Option<&Vec<u8>>,
    server: &EncryptionKey,
    kdc: &EncryptionKey,
    encode: &E,
    identify: &L,
    fresh: &F,
    form: &G,
    checksum: &C,
) -> (r: Result<Vec<PacBuffer>, Error>)
    requires
        forall|x: EncTicketPart| #[trigger] call_requires(*encode, (&x,)),
        forall|x: Vec<u8>| #[trigger] call_requires(*identify, (&x,)),
        forall|p: PacSubject, t: u32, n: &str| #[trigger] call_requires(*fresh, (&p, t, n)),
        forall|e: i32| #[trigger] call_requires(*form, (e,)),
        forall|k: EncryptionKey, u: u32, x: SignInput| #[trigger]
            call_requires(*checksum, (&k, u, &x)),
    ensures
        tgs_pac_result(
            store,
            *plan,
            *part,
            is_service_tkt,
            start,
            logon,
            *server,
            *kdc,
            *encode,
            *identify,
            *fresh,
            *form,
            *checksum,
            r,
        ),
{
    let from: Option<&Vec<PacBuffer>> = if plan.copies_pac {
        start
    } else {
        None
    };
    let client: Option<&str> = match &plan.client_info {
        Some(s) => Some(s.as_str()),
        None => None,
    };
    sign_ticket_pac(
        store,
        part,
        is_service_tkt,
        from,
        logon,
        client,
        server,
        kdc,
        encode,
        identify,
        fresh,
        form,
        checksum,
    )
}

/// What writing a signed PAC comes to.
pub open spec fn pac_written<W: Fn(&Vec<PacBuffer>) -> Vec<u8>>(
    write: W,
    v: Result<Vec<PacBuffer>, Error>,
    r: Result<Vec<u8>, Error>,
) -> bool {
    match v {
        Err(e) => r matches Err(x) && x == e,
        Ok(bs) => r matches Ok(o) && call_ensures(write, (&bs,), o),
    }
}

/// Signs the PAC of a TGS ticket.
pub struct TgsSigner<'a, 'b, S, E, L, F, G, C, W> {
    /// The entries.
    pub store: &'a S,
    /// The request that is answered.
    pub issue: &'a TgsIssue<'b>,
    /// What the PAC starts from, where it is not made anew.
    pub start: Option<&'a Vec<PacBuffer>>,
    /// Encodes a ticket.
    pub encode: &'a E,
    /// Reads whom logon information speaks of.
    pub identify: &'a L,
    /// Makes a new set of buffers for a subject, a time and a name.
    pub fresh: &'a F,
    /// Gives the form of the signatures of a key type.
    pub form: &'a G,
    /// Makes a checksum under a key and a usage.
    pub checksum: &'a C,
    /// Writes a PAC.
    pub write: &'a W,
}

/// The logon information of a subject.
pub open spec fn logon_of(s: &TgsSubject) -> Option<&Vec<u8>> {
    match &s.logon {
        Some(v) => Some(v),
        None => None,
    }
}

impl<
    'a,
    'b,
    S: PrincipalRead,
    E: Fn(&EncTicketPart) -> Result<Vec<u8>, Error>,
    L: Fn(&Vec<u8>) -> Result<LogonIdentity, String>,
    F: Fn(&PacSubject, u32, &str) -> FreshPac,
    G: Fn(i32) -> SignatureForm,
    C: Fn(&EncryptionKey, u32, &SignInput) -> Result<Vec<u8>, Error>,
    W: Fn(&Vec<PacBuffer>) -> Vec<u8>,
> PacSigner for TgsSigner<'a, 'b, S, E, L, F, G, C, W> {
    open spec fn ready(&self) -> bool {
        &&& forall|x: EncTicketPart| #[trigger] call_requires(*self.encode, (&x,))
        &&& forall|x: Vec<u8>| #[trigger] call_requires(*self.identify, (&x,))
        &&& forall|p: PacSubject, t: u32, n: &str| #[trigger]
            call_requires(*self.fresh, (&p, t, n))
        &&& forall|e: i32| #[trigger] call_requires(*self.form, (e,))
        &&& forall|k: EncryptionKey, u: u32, x: SignInput| #[trigger]
            call_requires(*self.checksum, (&k, u, &x))
        &&& forall|v: Vec<PacBuffer>| #[trigger] call_requires(*self.write, (&v,))
    }

    /// The PAC of the plan is signed, with the logon information of the subject,
    /// and written.
    open spec fn signs(
        &self,
        server: EncryptionKey,
        kdc: EncryptionKey,
        part: EncTicketPart,
        service: bool,
        r: Result<Vec<u8>, Error>,
    ) -> bool {
        exists|v: Result<Vec<PacBuffer>, Error>| #[trigger]
            pac_written(*self.write, v, r) && tgs_pac_result(
                self.store,
                self.issue.plan,
                part,
                service,
                self.start,
                logon_of(&self.issue.subject),
                server,
                kdc,
                *self.encode,
                *self.identify,
                *self.fresh,
                *self.form,
                *self.checksum,
                v,
            )
    }

    fn sign(
        &self,
        server: &EncryptionKey,
        kdc: &EncryptionKey,
        part: &EncTicketPart,
        service: bool,
    ) -> (r: Result<Vec<u8>, Error>) {
        let logon: Option<&Vec<u8>> = match &self.issue.subject.logon {
            Some(v) => Some(v),
            None => None,
        };
        let v = sign_tgs_pac(
            self.store,
            &self.issue.plan,
            part,
            service,
            self.start,
            logon,
            server,
            kdc,
            self.encode,
            self.identify,
            self.fresh,
            self.form,
            self.checksum,
        );
        let write = self.write;
        let ghost signed = v;
        let r: Result<Vec<u8>, Error> = match v {
            Err(e) => Err(e),
            Ok(bs) => Ok(write(&bs)),
        };
        assert(pac_written(*self.write, signed, r));
        r
    }
}

/// What signing the PAC of an AS ticket comes to under a key of the KDC: a new set
/// of buffers for the ticket's client is signed.
pub open spec fn new_pac_result<
    S: PrincipalRead,
    E: Fn(&EncTicketPart) -> Result<Vec<u8>, Error>,
    F: Fn(&PacSubject, u32, &str) -> FreshPac,
    G: Fn(i32) -> SignatureForm,
    C: Fn(&EncryptionKey, u32, &SignInput) -> Result<Vec<u8>, Error>,
>(
    store: &S,
    part: EncTicketPart,
    service: bool,
    server: EncryptionKey,
    kdc: EncryptionKey,
    encode: E,
    fresh: F,
    form: G,
    checksum: C,
    r: Result<Vec<PacBuffer>, Error>,
) -> bool {
    exists|der: Result<Vec<u8>, Error>, who: PacSubject|
        {
            &&& #[trigger] call_ensures(encode, (&part,), der)
            &&& who.domain is None
            &&& #[trigger] is_pac_identity(store, part.cname@, part.crealm@, who.identity)
            &&& match der {
                Err(e) => r matches Err(x) && x == e,
                Ok(d) => subject_signed(
                    part,
                    service,
                    None,
                    None,
                    None,
                    server,
                    kdc,
                    d@,
                    who,
                    fresh,
                    form,
                    checksum,
                    r,
                ),
            }
        }
}

/// Signs a new PAC for the client of a ticket.
fn sign_new_pac<
    S: PrincipalRead,
    E: Fn(&EncTicketPart) -> Result<Vec<u8>, Error>,
    F: Fn(&PacSubject, u32, &str) -> FreshPac,
    G: Fn(i32) -> SignatureForm,
    C: Fn(&EncryptionKey, u32, &SignInput) -> Result<Vec<u8>, Error>,
>(
    store: &S,
    part: &EncTicketPart,
    service: bool,
    server: &EncryptionKey,
    kdc: &EncryptionKey,
    encode: &E,
    fresh: &F,
    form: &G,
    checksum: &C,
) -> (r: Result<Vec<PacBuffer>, Error>)
    requires
        forall|x: EncTicketPart| #[trigger] call_requires(*encode, (&x,)),
        forall|p: PacSubject, t: u32, n: &str| #[trigger] call_requires(*fresh, (&p, t, n)),
        forall|e: i32| #[trigger] call_requires(*form, (e,)),
        forall|k: EncryptionKey, u: u32, x: SignInput| #[trigger]
            call_requires(*checksum, (&k, u, &x)),
    ensures
        new_pac_result(store, *part, service, *server, *kdc, *encode, *fresh, *form, *checksum, r),
{
    let der = encode(part);
    assert(call_ensures(*encode, (part,), der));
    let who = PacSubject {
        identity: pac_identity(store, &part.cname, part.crealm.as_str()),
        domain: None,
    };
    assert(is_pac_identity(store, part.cname@, part.crealm@, who.identity));
    match der {
        Err(e) => Err(e),
        Ok(d) => sign_for_subject(
            part,
            service,
            None,
            None,
            None,
            server,
            kdc,
            d.as_slice(),
            &who,
            fresh,
            form,
            checksum,
        ),
    }
}

/// Signs the PAC of an AS ticket, which is made anew for its client.
pub struct AsSigner<'a, S, E, F, G, C, W> {
    /// The entries.
    pub store: &'a S,
    /// Encodes a ticket.
    pub encode: &'a E,
    /// Makes a new set of buffers for a subject, a time and a name.
    pub fresh: &'a F,
    /// Gives the form of the signatures of a key type.
    pub form: &'a G,
    /// Makes a checksum under a key and a usage.
    pub checksum: &'a C,
    /// Writes a PAC.
    pub write: &'a W,
}

impl<
    'a,
    S: PrincipalRead,
    E: Fn(&EncTicketPart) -> Result<Vec<u8>, Error>,
    F: Fn(&PacSubject, u32, &str) -> FreshPac,
    G: Fn(i32) -> SignatureForm,
    C: Fn(&EncryptionKey, u32, &SignInput) -> Result<Vec<u8>, Error>,
    W: Fn(&Vec<PacBuffer>) -> Vec<u8>,
> PacSigner for AsSigner<'a, S, E, F, G, C, W> {
    open spec fn ready(&self) -> bool {
        &&& forall|x: EncTicketPart| #[trigger] call_requires(*self.encode, (&x,))
        &&& forall|p: PacSubject, t: u32, n: &str| #[trigger]
            call_requires(*self.fresh, (&p, t, n))
        &&& forall|e: i32| #[trigger] call_requires(*self.form, (e,))
        &&& forall|k: EncryptionKey, u: u32, x: SignInput| #[trigger]
            call_requires(*self.checksum, (&k, u, &x))
        &&& forall|v: Vec<PacBuffer>| #[trigger] call_requires(*self.write, (&v,))
    }

    /// A new PAC is signed and written.
    open spec fn signs(
        &self,
        server: EncryptionKey,
        kdc: EncryptionKey,
        part: EncTicketPart,
        service: bool,
        r: Result<Vec<u8>, Error>,
    ) -> bool {
        exists|v: Result<Vec<PacBuffer>, Error>| #[trigger]
            pac_written(*self.write, v, r) && new_pac_result(
                self.store,
                part,
                service,
                server,
                kdc,
                *self.encode,
                *self.fresh,
                *self.form,
                *self.checksum,
                v,
            )
    }

    fn sign(
        &self,
        server: &EncryptionKey,
        kdc: &EncryptionKey,
        part: &EncTicketPart,
        service: bool,
    ) -> (r: Result<Vec<u8>, Error>) {
        let v = sign_new_pac(
            self.store,
            part,
            service,
            server,
            kdc,
            self.encode,
            self.fresh,
            self.form,
            self.checksum,
        );
        let write = self.write;
        let ghost signed = v;
        let r: Result<Vec<u8>, Error> = match v {
            Err(e) => Err(e),
            Ok(bs) => Ok(write(&bs)),
        };
        assert(pac_written(*self.write, signed, r));
        r
    }
}

/// A ticket on behalf of another user gets a new PAC; in a delegation that of
/// the second ticket goes on, and otherwise that of the presented one.
pub proof fn law_pac_that_goes_on(
    subject: TgsSubject,
    header: Option<&Vec<PacBuffer>>,
    evidence: Option<&Vec<PacBuffer>>,
)
    ensures
        subject.s4u2self ==> spec_subject_pac(subject, header, evidence) is None,
        !subject.s4u2self && subject.s4u2proxy ==> spec_subject_pac(subject, header, evidence)
            == evidence,
        !subject.s4u2self && !subject.s4u2proxy ==> spec_subject_pac(subject, header, evidence)
            == header,
{
}

/// A PAC that gets no more hop goes on as it is, and where there is none, none
/// goes on; a hop is added in a delegation within the realm with a second ticket.
pub proof fn law_pac_goes_on_unchanged<
    T: Fn(&PrincipalName) -> String,
    H: Fn(&PrincipalName, &String) -> String,
    R: Fn(&Vec<u8>) -> Result<DelegationInfo, Error>,
    N: Fn(&DelegationInfo) -> Vec<u8>,
>(
    subject: TgsSubject,
    requested: PrincipalName,
    pac: Option<&Vec<PacBuffer>>,
    unparse: T,
    unparse_with_realm: H,
    read: R,
    write: N,
    r: Result<Option<Vec<PacBuffer>>, Error>,
)
    requires
        start_result(subject, requested, pac, unparse, unparse_with_realm, read, write, r),
        !subject.s4u2proxy || subject.is_crossrealm || subject.stkt is None,
    ensures
        r matches Ok(o) && match (pac, o) {
            (Some(a), Some(b)) => buffers_view(b@) == buffers_view(a@),
            (None, None) => true,
            _ => false,
        },
{
}

/// Whom a PAC speaks of: with logon information whom that says, in the client's
/// realm and the domain that it names; what cannot be read is refused.
pub proof fn law_logon_names_the_subject<
    S: PrincipalRead,
    L: Fn(&Vec<u8>) -> Result<LogonIdentity, String>,
>(
    store: &S,
    part: EncTicketPart,
    logon: &Vec<u8>,
    identify: L,
    v: LogonIdentity,
    r: Result<PacSubject, Error>,
)
    requires
        identity_result(store, part, Some(logon), identify, r),
        forall|l: Result<LogonIdentity, String>| #[trigger]
            call_ensures(identify, (logon,), l) ==> l == Ok::<LogonIdentity, String>(v),
    ensures
        r matches Ok(p) && p.identity.sam == v.sam && p.identity.rid == v.rid && p.domain == Some(
            v.domain,
        ) && p.identity.realm@ == part.crealm@,
{
}

/// Logon information that cannot be read is refused, and the refusal says why.
pub proof fn law_unreadable_logon_is_refused<
    S: PrincipalRead,
    L: Fn(&Vec<u8>) -> Result<LogonIdentity, String>,
>(
    store: &S,
    part: EncTicketPart,
    logon: &Vec<u8>,
    identify: L,
    r: Result<PacSubject, Error>,
)
    requires
        identity_result(store, part, Some(logon), identify, r),
        forall|l: Result<LogonIdentity, String>| #[trigger]
            call_ensures(identify, (logon,), l) ==> l is Err,
    ensures
        r matches Err(Error::Protocol { code, text, .. }) && code == BAD_INTEGRITY && text == Some(
            Status::HandleAuthdata,
        ),
{
}

/// The client that a new PAC names is the ticket's, where no other is given.
pub proof fn law_pac_names_the_client(cname: NameView, other: Seq<char>)
    ensures
        pac_client_name(cname, None) == cname.joined(),
        pac_client_name(cname, Some(other)) == other,
{
}

} // verus!
