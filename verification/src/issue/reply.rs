//! Issued tickets, reply parts and KRB-ERROR.

use crate::error::{
    proto, refusal, spec_errcode_to_protocol, Error, Status, BAD_INTEGRITY, DISCARD, GENERIC,
    PADATA_TYPE_NOSUPP, PREAUTH_FAILED, PREAUTH_REQUIRED,
};
use crate::error::errcode_to_protocol;
use crate::flags::{Flags, FORWARDED, PROXY, RENEW, VALIDATE, ANONYMOUS};
use crate::issue::kdc_util::{hides_client, pac_included, spec_include_pac};
use crate::issue::kdc_util::fast_hides_client;
use crate::issue::times::{omit_start_if_auth, spec_omit_start};
use crate::issue::tgs_req::{TgsRequest, TgsSubject, TicketTimes, ANONYMOUS_REALM};
use crate::msg::{
    find_pa, has_pa, pa_position, EncTicketPart, EncryptionKey, HostAddress, KdcReqBody, PaData,
    MSG_AS_REQ, MSG_TGS_REQ, PA_FX_ERROR, PA_PAC_OPTIONS, PA_REQ_ENC_PA_REP, PA_TGS_REQ, PVNO,
};
use crate::name::{anonymous_view, krbtgt_view, NameView, PrincipalName};
use crate::store::{attr, attr_set, Policy, KDB_NO_AUTH_DATA_REQUIRED};
use crate::text::{all_ascii, is_ascii_text};
use vstd::prelude::*;
use vstd::string::*;

verus! {

/// The addresses of a TGS ticket: those of the header ticket, but for a
/// forwarded or proxied one, which gets those asked for.
pub open spec fn ticket_caddr(
    o: Flags,
    asked: Option<Vec<HostAddress>>,
    header: Option<Vec<HostAddress>>,
) -> Option<Vec<HostAddress>> {
    if rewrites_addresses(o) {
        asked
    } else {
        header
    }
}

/// A request that sets the ticket's addresses: FORWARDED or PROXY, and no
/// renewal or validation.
pub open spec fn rewrites_addresses(o: Flags) -> bool {
    &&& !o.has(RENEW as int)
    &&& !o.has(VALIDATE as int)
    &&& o.has(FORWARDED as int) || o.has(PROXY as int)
}

/// The addresses of a TGS ticket.
pub fn tgs_ticket_caddr<'a>(body: &'a KdcReqBody, header: &'a EncTicketPart) -> (r: &'a Option<
    Vec<HostAddress>,
>)
    ensures
        *r == ticket_caddr(body.kdc_options, body.addresses, header.caddr),
{
    let o = body.kdc_options;
    if o.bit(RENEW) || o.bit(VALIDATE) {
        &header.caddr
    } else if o.bit(FORWARDED) || o.bit(PROXY) {
        &body.addresses
    } else {
        &header.caddr
    }
}

/// The addresses named in a TGS reply: only those that the request set.
pub fn tgs_reply_caddr(body: &KdcReqBody) -> (r: Option<&Vec<HostAddress>>)
    ensures
        match r {
            Some(v) => rewrites_addresses(body.kdc_options) && body.addresses == Some(*v),
            None => !rewrites_addresses(body.kdc_options) || body.addresses is None,
        },
{
    let o = body.kdc_options;
    let rewrite: bool = o.bit(FORWARDED) || o.bit(PROXY);
    if o.bit(RENEW) || o.bit(VALIDATE) || !rewrite {
        None
    } else {
        body.addresses.as_ref()
    }
}

/// The key under which the KDC signs a ticket's PAC.
#[derive(Clone, Copy, Debug, PartialEq, Eq, Structural)]
pub enum PacKey {
    /// The ticket's own key.
    TicketKey,
    /// The key of the local ticket-granting service.
    LocalTgt,
}

/// The key of a reply's encrypted part.
#[derive(Clone, Copy, Debug, PartialEq, Eq, Structural)]
pub enum ReplyKey {
    /// The authenticator's subkey.
    Subkey,
    /// The session key of the presented ticket.
    Session,
}

/// Key usage of a TGS reply under the session key.
pub const KU_TGS_REP_SESSION: u32 = 8;

/// Key usage of a TGS reply under a subkey.
pub const KU_TGS_REP_SUBKEY: u32 = 9;

/// What the FAST layer of a request holds.
pub struct FastFacts<'a> {
    /// Options.
    pub options: &'a [bool],
    /// Nonce.
    pub nonce: u32,
    /// Inner padata.
    pub padata: &'a [PaData],
    /// Armor key.
    pub armor_key: &'a EncryptionKey,
}

/// What a TGS ticket and its reply are made of, but for the keys and times.
pub struct TgsPlan<'a> {
    /// Server of the ticket.
    pub sname: PrincipalName,
    /// Addresses of the ticket.
    pub ticket_caddr: &'a Option<Vec<HostAddress>>,
    /// Addresses in the reply.
    pub reply_caddr: Option<&'a Vec<HostAddress>>,
    /// Key of the PAC's KDC signatures.
    pub pac_key: PacKey,
    /// The ticket gets a PAC.
    pub include_pac: bool,
    /// The PAC is that of the subject, signed anew.
    pub copies_pac: bool,
    /// The delegation buffer of the PAC gets one more service.
    pub extends_delegation: bool,
    /// The client named in the PAC, where it is not the ticket's.
    pub client_info: Option<String>,
    /// Key of the reply.
    pub reply_key: ReplyKey,
    /// Usage of that key.
    pub usage: u32,
    /// Nonce of the reply.
    pub nonce: u32,
    /// The reply proves that it answers this request.
    pub want_enc_pa: bool,
    /// Client of the reply.
    pub rep_cname: PrincipalName,
    /// Client realm of the reply.
    pub rep_crealm: String,
}

/// Server of a TGS ticket: that of the presented ticket where it is renewed
/// or validated, the one referred to, else the one asked for.
pub open spec fn ticket_server(req: TgsRequest, is_referral: bool) -> NameView {
    let o = req.body.kdc_options;
    if o.has(RENEW as int) || o.has(VALIDATE as int) {
        req.header_sname@
    } else if is_referral {
        req.server.name@
    } else {
        req.sname@
    }
}

/// The client named in the PAC of a ticket got for another user: with its
/// realm on a referral, without on the last hop.
pub open spec fn s4u_client_info(subject: TgsSubject) -> Option<Seq<char>> {
    if !subject.s4u2self && !subject.s4u2proxy {
        None
    } else if subject.is_referral && subject.s4u_subject is Some {
        let s = subject.s4u_subject->0;
        Some(s.0@.joined().push('@') + s.1@)
    } else {
        Some(subject.cname@.joined())
    }
}

/// The client named in the PAC of a ticket got for another user.
pub fn pac_client_of(subject: &TgsSubject) -> (r: Option<String>)
    ensures
        match r {
            Some(s) => s4u_client_info(*subject) == Some(s@),
            None => s4u_client_info(*subject) is None,
        },
{
    if !subject.s4u2self && !subject.s4u2proxy {
        return None;
    }
    if subject.is_referral {
        match &subject.s4u_subject {
            Some(s) => {
                let mut out = s.0.components_joined();
                out.push('@');
                out.append(s.1.as_str());
                return Some(out);
            },
            None => {},
        }
    }
    Some(subject.cname.components_joined())
}

/// Whether a request asks for a proof that the reply answers it.
pub open spec fn wants_enc_pa(padata: Seq<PaData>, fast: Option<&FastFacts>) -> bool {
    has_pa(padata, PA_REQ_ENC_PA_REP) || (fast matches Some(f) && has_pa(
        f.padata@,
        PA_REQ_ENC_PA_REP,
    ))
}

/// Whether a request asks for a proof that the reply answers it.
pub fn asks_enc_pa(padata: &[PaData], fast: Option<&FastFacts>) -> (r: bool)
    ensures
        r == wants_enc_pa(padata@, fast),
{
    if find_pa(padata, PA_REQ_ENC_PA_REP).is_some() {
        return true;
    }
    match fast {
        Some(f) => find_pa(f.padata, PA_REQ_ENC_PA_REP).is_some(),
        None => false,
    }
}

/// The client of a reply: the anonymous one where FAST hides it.
pub open spec fn reply_client(
    cname: NameView,
    crealm: Seq<char>,
    fast: Option<&FastFacts>,
) -> (NameView, Seq<char>) {
    if fast matches Some(f) && hides_client(f.options@) {
        (anonymous_view(), ANONYMOUS_REALM@)
    } else {
        (cname, crealm)
    }
}

/// The client of a reply.
pub fn client_of_reply(cname: &PrincipalName, crealm: &str, fast: Option<&FastFacts>) -> (r: (
    PrincipalName,
    String,
))
    ensures
        (r.0@, r.1@) == reply_client(cname@, crealm@, fast),
{
    let hide: bool = match fast {
        Some(f) => fast_hides_client(f.options),
        None => false,
    };
    if hide {
        (PrincipalName::anonymous(), ANONYMOUS_REALM.to_owned())
    } else {
        (cname.copy(), crealm.to_owned())
    }
}

/// The nonce of a reply: that of the FAST layer, where there is one.
pub fn reply_nonce(body: &KdcReqBody, fast: Option<&FastFacts>) -> (r: u32)
    ensures
        r == (match fast {
            Some(f) => f.nonce,
            None => body.nonce,
        }),
{
    match fast {
        Some(f) => f.nonce,
        None => body.nonce,
    }
}

/// `p` is the plan of the answer to a checked TGS request.
pub open spec fn is_tgs_plan(
    p: TgsPlan,
    policy: Policy,
    realm: Seq<char>,
    req: TgsRequest,
    subject: TgsSubject,
    flags: Flags,
    subject_pac: bool,
    subkey: bool,
    padata: Seq<PaData>,
    fast: Option<&FastFacts>,
) -> bool {
    &&& p.sname@ == ticket_server(req, subject.is_referral)
    &&& *p.ticket_caddr == ticket_caddr(
        req.body.kdc_options,
        req.body.addresses,
        req.enc_tkt.caddr,
    )
    &&& match p.reply_caddr {
        Some(v) => rewrites_addresses(req.body.kdc_options) && req.body.addresses == Some(*v),
        None => !rewrites_addresses(req.body.kdc_options) || req.body.addresses is None,
    }
    &&& p.pac_key == (if req.server.name@.is_krbtgt() && !req.server.name@.is_krbtgt_for(realm) {
        PacKey::TicketKey
    } else {
        PacKey::LocalTgt
    })
    &&& p.include_pac == spec_include_pac(
        policy,
        !subject.s4u2self && attr_set(req.server.attributes, KDB_NO_AUTH_DATA_REQUIRED),
        false,
        None,
        subject_pac,
        flags.has(ANONYMOUS as int),
    )
    &&& p.copies_pac == (!subject.s4u2self && subject_pac)
    &&& p.extends_delegation == (subject.s4u2proxy && !subject.is_crossrealm && subject_pac
        && subject.stkt is Some)
    &&& match p.client_info {
        Some(s) => s4u_client_info(subject) == Some(s@),
        None => s4u_client_info(subject) is None,
    }
    &&& p.reply_key == (if subkey {
        ReplyKey::Subkey
    } else {
        ReplyKey::Session
    })
    &&& p.usage == (if subkey {
        KU_TGS_REP_SUBKEY
    } else {
        KU_TGS_REP_SESSION
    })
    &&& p.nonce == (match fast {
        Some(f) => f.nonce,
        None => req.body.nonce,
    })
    &&& p.want_enc_pa == wants_enc_pa(padata, fast)
    &&& (p.rep_cname@, p.rep_crealm@) == reply_client(subject.cname@, subject.crealm@, fast)
}

/// Lays out the ticket and the reply that answer a checked TGS request.
/// `flags` are the ticket's; `subject_pac` says that the subject's ticket
/// has a PAC, and `subkey` that the authenticator has a subkey. A service that
/// asks on behalf of a user gets authorization data though its entry goes
/// without.
pub fn tgs_issue_ticket<'a>(
    policy: &Policy,
    realm: &str,
    req: &TgsRequest<'a>,
    subject: &TgsSubject,
    flags: Flags,
    subject_pac: bool,
    subkey: bool,
    padata: &[PaData],
    fast: Option<&FastFacts>,
) -> (r: TgsPlan<'a>)
    ensures
        is_tgs_plan(
            r,
            *policy,
            realm@,
            *req,
            *subject,
            flags,
            subject_pac,
            subkey,
            padata@,
            fast,
        ),
{
    let o = req.body.kdc_options;
    let sname = if o.bit(RENEW) || o.bit(VALIDATE) {
        req.header_sname.copy()
    } else if subject.is_referral {
        req.server.name.copy()
    } else {
        req.sname.copy()
    };
    let pac_key = if req.server.name.is_krbtgt() && !req.server.name.is_krbtgt_for(realm) {
        PacKey::TicketKey
    } else {
        PacKey::LocalTgt
    };
    let include_pac = pac_included(
        policy,
        !subject.s4u2self && attr(req.server, KDB_NO_AUTH_DATA_REQUIRED),
        false,
        None,
        subject_pac,
        flags.bit(ANONYMOUS),
    );
    let (rep_cname, rep_crealm) = client_of_reply(&subject.cname, subject.crealm.as_str(), fast);
    let (reply_key, usage): (ReplyKey, u32) = if subkey {
        (ReplyKey::Subkey, KU_TGS_REP_SUBKEY)
    } else {
        (ReplyKey::Session, KU_TGS_REP_SESSION)
    };
    TgsPlan {
        sname,
        ticket_caddr: tgs_ticket_caddr(req.body, req.enc_tkt),
        reply_caddr: tgs_reply_caddr(req.body),
        pac_key,
        include_pac,
        copies_pac: !subject.s4u2self && subject_pac,
        extends_delegation: subject.s4u2proxy && !subject.is_crossrealm && subject_pac
            && subject.stkt.is_some(),
        client_info: pac_client_of(subject),
        reply_key,
        usage,
        nonce: reply_nonce(req.body, fast),
        want_enc_pa: asks_enc_pa(padata, fast),
        rep_cname,
        rep_crealm,
    }
}

/// The encrypted part of a reply.
#[derive(Clone, Debug, PartialEq, Eq)]
pub struct EncKdcRepPart {
    /// Session key.
    pub key: EncryptionKey,
    /// Last requests: type and time.
    pub last_req: Vec<(i32, u32)>,
    /// Nonce.
    pub nonce: u32,
    /// When the client's key or entry expires.
    pub key_expiration: Option<u32>,
    /// Flags.
    pub flags: Flags,
    /// Time of initial authentication.
    pub authtime: u32,
    /// Start.
    pub starttime: Option<u32>,
    /// End.
    pub endtime: u32,
    /// Renewal end.
    pub renew_till: Option<u32>,
    /// Server realm.
    pub srealm: String,
    /// Server.
    pub sname: PrincipalName,
    /// Addresses.
    pub caddr: Option<Vec<HostAddress>>,
    /// Padata.
    pub encrypted_pa_data: Option<Vec<PaData>>,
}

/// Makes the encrypted part of a reply.
pub fn enc_rep_part(
    session: EncryptionKey,
    nonce: u32,
    times: TicketTimes,
    realm: String,
    sname: PrincipalName,
    encrypted_pa_data: Option<Vec<PaData>>,
    caddr: Option<Vec<HostAddress>>,
    key_expiration: Option<u32>,
) -> (r: EncKdcRepPart)
    ensures
        r.key == session,
        r.last_req@ == seq![(0i32, 0u32)],
        r.nonce == nonce,
        r.key_expiration == key_expiration,
        r.flags == times.flags,
        r.authtime == times.authtime,
        r.starttime == spec_omit_start(times.starttime, times.authtime),
        r.endtime == times.endtime,
        r.renew_till == times.renew_till,
        r.srealm == realm,
        r.sname == sname,
        r.caddr == caddr,
        r.encrypted_pa_data == encrypted_pa_data,
{
    EncKdcRepPart {
        key: session,
        last_req: vec![(0i32, 0u32)],
        nonce,
        key_expiration,
        flags: times.flags,
        authtime: times.authtime,
        starttime: omit_start_if_auth(times.starttime, times.authtime),
        endtime: times.endtime,
        renew_till: times.renew_till,
        srealm: realm,
        sname,
        caddr,
        encrypted_pa_data,
    }
}

/// Padata inside a reply: what is given, the proof that the reply answers the
/// request, and the one PAC option that is honoured.
pub open spec fn enc_padata(
    extra: Option<PaData>,
    proof_data: Option<Seq<PaData>>,
    rbcd: bool,
    option: PaData,
) -> Seq<PaData> {
    let a = match extra {
        Some(p) => seq![p],
        None => Seq::empty(),
    };
    let b = match proof_data {
        Some(v) => v,
        None => Seq::empty(),
    };
    let c = if rbcd {
        seq![option]
    } else {
        Seq::empty()
    };
    a + b + c
}

/// Makes the padata inside a reply. `proof_data` is there where the request
/// asked for it and its octets are at hand; `rbcd` is the flag of
/// PA-PAC-OPTIONS, and `option` that flag alone, encoded.
pub fn return_enc_padata(
    extra: Option<PaData>,
    proof_data: Option<Vec<PaData>>,
    rbcd: bool,
    option: Vec<u8>,
) -> (r: Option<Vec<PaData>>)
    ensures
        ({
            let all = enc_padata(
                extra,
                match proof_data {
                    Some(v) => Some(v@),
                    None => None,
                },
                rbcd,
                (PaData { padata_type: PA_PAC_OPTIONS, padata_value: option }),
            );
            match r {
                Some(v) => v@ == all && all.len() > 0,
                None => all.len() == 0,
            }
        }),
{
    let mut out: Vec<PaData> = Vec::new();
    match extra {
        Some(p) => {
            out.push(p);
        },
        None => {},
    }
    match proof_data {
        Some(v) => {
            let mut more = v;
            out.append(&mut more);
        },
        None => {},
    }
    if rbcd {
        out.push(PaData { padata_type: PA_PAC_OPTIONS, padata_value: option });
    }
    if out.len() == 0 {
        None
    } else {
        Some(out)
    }
}

/// A KRB-ERROR, but for the time it is sent.
#[derive(Clone, Debug, PartialEq, Eq)]
pub struct KrbError {
    /// Error code.
    pub error_code: i32,
    /// Client realm.
    pub crealm: Option<String>,
    /// Client.
    pub cname: Option<PrincipalName>,
    /// Server realm.
    pub realm: String,
    /// Server.
    pub sname: PrincipalName,
    /// Status word.
    pub e_text: Option<Status>,
    /// Data.
    pub e_data: Option<Vec<u8>>,
}

/// The server realm of a KRB-ERROR: that of the request, else the KDC's;
/// `stand_in` where it cannot be written.
pub open spec fn error_realm(
    body: Option<&KdcReqBody>,
    store_realm: Seq<char>,
    stand_in: Seq<char>,
) -> Seq<char> {
    let realm = match body {
        Some(b) => if b.realm@.len() == 0 {
            store_realm
        } else {
            b.realm@
        },
        None => store_realm,
    };
    if all_ascii(realm) {
        realm
    } else {
        stand_in
    }
}

/// The server of a KRB-ERROR: that of the request, else the ticket-granting
/// service of the error's realm.
pub open spec fn error_server(body: Option<&KdcReqBody>, realm: Seq<char>) -> NameView {
    match body {
        Some(b) => match b.sname {
            Some(n) => n@,
            None => krbtgt_view(realm),
        },
        None => krbtgt_view(realm),
    }
}

/// The client of a KRB-ERROR and its realm: that of the request, the
/// anonymous one where FAST hides it, none where the request names none.
pub open spec fn error_client(
    body: Option<&KdcReqBody>,
    realm: Seq<char>,
    hide_client: bool,
) -> Option<(NameView, Seq<char>)> {
    match body {
        Some(b) => match b.cname {
            Some(n) => if hide_client {
                Some((anonymous_view(), ANONYMOUS_REALM@))
            } else {
                Some((n@, realm))
            },
            None => None,
        },
        None => None,
    }
}

impl KrbError {
    /// Client and client realm, where both are there.
    pub open spec fn client(&self) -> Option<(NameView, Seq<char>)> {
        match (self.cname, self.crealm) {
            (Some(n), Some(r)) => Some((n@, r@)),
            _ => None,
        }
    }
}

/// `k` is the KRB-ERROR with a code.
pub open spec fn is_krb_error(
    k: KrbError,
    store_realm: Seq<char>,
    stand_in: Seq<char>,
    code: i32,
    text: Option<Status>,
    e_data: Option<Vec<u8>>,
    body: Option<&KdcReqBody>,
    hide_client: bool,
) -> bool {
    &&& k.error_code == spec_errcode_to_protocol(code)
    &&& k.realm@ == error_realm(body, store_realm, stand_in)
    &&& k.sname@ == error_server(body, k.realm@)
    &&& k.client() == error_client(body, k.realm@, hide_client)
    &&& k.cname is Some == k.crealm is Some
    &&& k.e_text == text
    &&& k.e_data == e_data
}

/// Makes a KRB-ERROR.
pub fn krb_error(
    store_realm: &str,
    stand_in: &str,
    code: i32,
    text: Option<Status>,
    e_data: Option<Vec<u8>>,
    body: Option<&KdcReqBody>,
    hide_client: bool,
) -> (r: KrbError)
    ensures
        is_krb_error(r, store_realm@, stand_in@, code, text, e_data, body, hide_client),
{
    let mut realm = match body {
        Some(b) => if b.realm.as_str().is_empty() {
            store_realm.to_owned()
        } else {
            b.realm.clone()
        },
        None => store_realm.to_owned(),
    };
    if !is_ascii_text(realm.as_str()) {
        realm = stand_in.to_owned();
    }
    let sname = match body {
        Some(b) => match &b.sname {
            Some(n) => n.copy(),
            None => PrincipalName::krbtgt(realm.as_str()),
        },
        None => PrincipalName::krbtgt(realm.as_str()),
    };
    let mut cname: Option<PrincipalName> = None;
    let mut crealm: Option<String> = None;
    match body {
        Some(b) => match &b.cname {
            Some(n) => if hide_client {
                cname = Some(PrincipalName::anonymous());
                crealm = Some(ANONYMOUS_REALM.to_owned());
            } else {
                cname = Some(n.copy());
                crealm = Some(realm.clone());
            },
            None => {},
        },
        None => {},
    }
    KrbError {
        error_code: errcode_to_protocol(code),
        crealm,
        cname,
        realm,
        sname,
        e_text: text,
        e_data,
    }
}

/// A KRB-ERROR that names a client under FAST's veil never names the one of
/// the request.
pub proof fn law_hidden_client_is_anonymous(
    body: Option<&KdcReqBody>,
    realm: Seq<char>,
    c: (NameView, Seq<char>),
)
    requires
        error_client(body, realm, true) == Some(c),
    ensures
        c == (anonymous_view(), ANONYMOUS_REALM@),
{
}

/// What a failed request is answered with.
#[derive(Clone, Debug, PartialEq, Eq)]
pub enum ErrorReply {
    /// Nothing.
    Silence {
        /// Text for the log.
        detail: Option<String>,
    },
    /// A KRB-ERROR.
    Refusal {
        /// Error code.
        code: i32,
        /// Status word.
        text: Option<Status>,
        /// Data.
        e_data: Option<Vec<u8>>,
        /// Text for the log.
        detail: Option<String>,
    },
}

/// A text for the log, where it says anything.
pub fn non_empty(s: Option<String>) -> (r: Option<String>)
    ensures
        r == spec_non_empty(s),
{
    match s {
        Some(t) => if t.as_str().is_empty() {
            None
        } else {
            Some(t)
        },
        None => None,
    }
}

/// A text for the log, where it says anything.
pub open spec fn spec_non_empty(s: Option<String>) -> Option<String> {
    match s {
        Some(t) => if t@.len() == 0 {
            None
        } else {
            Some(t)
        },
        None => None,
    }
}

/// The reply that refuses with a code and a status word. `detail` is the
/// text for the log.
pub open spec fn refuses(
    r: ErrorReply,
    code: i32,
    text: Option<Status>,
    e_data: Option<Vec<u8>>,
    detail: Option<Seq<char>>,
) -> bool {
    r matches ErrorReply::Refusal { code: c, text: t, e_data: d, detail: x } && c == code && t
        == text && d == e_data && (match x {
        Some(s) => detail == Some(s@),
        None => detail is None,
    })
}

/// The text that a failure leaves in the log, where it says anything.
pub open spec fn log_text(s: Seq<char>) -> Option<Seq<char>> {
    if s.len() == 0 {
        None
    } else {
        Some(s)
    }
}

/// The optional text that a failure leaves in the log.
pub open spec fn log_detail(s: Option<String>) -> Option<Seq<char>> {
    match s {
        Some(t) => log_text(t@),
        None => None,
    }
}

/// `r` is how a failed AS request is answered.
pub open spec fn as_error_reply(e: Error, r: ErrorReply) -> bool {
    match e {
        Error::PreauthRequired { e_data } => refuses(
            r,
            PREAUTH_REQUIRED,
            Some(Status::NeededPreauth),
            Some(e_data),
            None,
        ),
        Error::Protocol { code, text, e_data, detail } => if code == DISCARD {
            r matches ErrorReply::Silence { detail: d } && d == spec_non_empty(detail)
        } else {
            refuses(r, code, text, e_data, log_detail(detail))
        },
        Error::Crypto(d) => refuses(
            r,
            PREAUTH_FAILED,
            Some(Status::PreauthFailed),
            None,
            log_text(d@),
        ),
        Error::Asn1(d) => refuses(
            r,
            GENERIC,
            Some(Status::UnknownReason),
            None,
            log_text(d@),
        ),
        other => refuses(
            r,
            GENERIC,
            Some(Status::UnknownReason),
            None,
            log_text(other.spec_message(Seq::empty())),
        ),
    }
}

/// How a failed AS request is answered: a discarded one not at all, one that
/// failed in the crypto layer as failed pre-authentication. Where it has
/// data, the caller puts the cookie behind it.
pub fn as_reply(e: Error) -> (r: ErrorReply)
    ensures
        as_error_reply(e, r),
{
    match e {
        Error::PreauthRequired { e_data } => ErrorReply::Refusal {
            code: PREAUTH_REQUIRED,
            text: Some(Status::NeededPreauth),
            e_data: Some(e_data),
            detail: None,
        },
        Error::Protocol { code, text, e_data, detail } => if code == DISCARD {
            ErrorReply::Silence { detail: non_empty(detail) }
        } else {
            ErrorReply::Refusal { code, text, e_data, detail: non_empty(detail) }
        },
        Error::Crypto(d) => ErrorReply::Refusal {
            code: PREAUTH_FAILED,
            text: Some(Status::PreauthFailed),
            e_data: None,
            detail: non_empty(Some(d)),
        },
        Error::Asn1(d) => ErrorReply::Refusal {
            code: GENERIC,
            text: Some(Status::UnknownReason),
            e_data: None,
            detail: non_empty(Some(d)),
        },
        other => ErrorReply::Refusal {
            code: GENERIC,
            text: Some(Status::UnknownReason),
            e_data: None,
            detail: non_empty(Some(no_status_message(&other))),
        },
    }
}

/// The text of a failure that has no status word.
fn no_status_message(e: &Error) -> (r: String)
    ensures
        r@ == e.spec_message(Seq::empty()),
{
    let none = String::new();
    e.message(none.as_str())
}

/// `r` is how a failed TGS request is answered.
pub open spec fn tgs_error_reply(e: Error, r: ErrorReply) -> bool {
    match e {
        Error::Protocol { code, text, e_data, detail } => refuses(
            r,
            code,
            text,
            e_data,
            log_detail(detail),
        ),
        Error::Crypto(d) => refuses(
            r,
            BAD_INTEGRITY,
            Some(Status::ProcessTgs),
            None,
            log_text(d@),
        ),
        Error::Asn1(d) => refuses(r, GENERIC, Some(Status::ProcessTgs), None, log_text(d@)),
        other => refuses(
            r,
            GENERIC,
            Some(Status::ProcessTgs),
            None,
            log_text(other.spec_message(Seq::empty())),
        ),
    }
}

/// How a failed TGS request is answered: one that failed in the crypto layer
/// as a header that could not be checked.
pub fn tgs_reply(e: Error) -> (r: ErrorReply)
    ensures
        tgs_error_reply(e, r),
{
    match e {
        Error::Protocol { code, text, e_data, detail } => ErrorReply::Refusal {
            code,
            text,
            e_data,
            detail: non_empty(detail),
        },
        Error::Crypto(d) => ErrorReply::Refusal {
            code: BAD_INTEGRITY,
            text: Some(Status::ProcessTgs),
            e_data: None,
            detail: non_empty(Some(d)),
        },
        Error::Asn1(d) => ErrorReply::Refusal {
            code: GENERIC,
            text: Some(Status::ProcessTgs),
            e_data: None,
            detail: non_empty(Some(d)),
        },
        other => ErrorReply::Refusal {
            code: GENERIC,
            text: Some(Status::ProcessTgs),
            e_data: None,
            detail: non_empty(Some(no_status_message(&other))),
        },
    }
}

/// Whether a message is an AS request at all.
pub fn check_as_message(msg_type: i32) -> (r: Result<(), Error>)
    ensures
        r == (if msg_type == MSG_AS_REQ {
            Ok(())
        } else {
            Err(refusal(GENERIC, Status::ValidateMessageType))
        }),
{
    if msg_type != MSG_AS_REQ {
        return Err(proto(GENERIC, Status::ValidateMessageType));
    }
    Ok(())
}

/// Where the header of a TGS request stands in its padata.
pub fn extract_pa_tgs(msg_type: i32, padata: &[PaData]) -> (r: Result<usize, Error>)
    ensures
        if msg_type != MSG_TGS_REQ {
            r == Err::<usize, Error>(refusal(GENERIC, Status::UnknownReason))
        } else if !has_pa(padata@, PA_TGS_REQ) {
            r == Err::<usize, Error>(refusal(PADATA_TYPE_NOSUPP, Status::ProcessTgs))
        } else {
            r matches Ok(i) && i == pa_position(padata@, PA_TGS_REQ) && i < padata.len()
        },
{
    if msg_type != MSG_TGS_REQ {
        return Err(proto(GENERIC, Status::UnknownReason));
    }
    match find_pa(padata, PA_TGS_REQ) {
        Some(i) => Ok(i),
        None => Err(proto(PADATA_TYPE_NOSUPP, Status::ProcessTgs)),
    }
}

/// The client that a refused TGS request's KRB-ERROR names: that of the
/// presented ticket, where the message is a TGS request and the ticket can be
/// opened. A request that asks for mutual authentication or for the session
/// key as ticket key is refused before its ticket is opened.
pub open spec fn spec_tgs_header_client(
    msg_type: i32,
    use_session_key: bool,
    wants_mutual: bool,
    opened: Option<PrincipalName>,
) -> Option<PrincipalName> {
    if msg_type == MSG_TGS_REQ && !use_session_key && !wants_mutual {
        opened
    } else {
        None
    }
}

/// A refused TGS request names the client of the ticket that was opened; another
/// message names none, and neither does one that asks for mutual authentication
/// or for the session key as ticket key.
pub proof fn law_refused_request_names_the_client(
    msg_type: i32,
    use_session_key: bool,
    wants_mutual: bool,
    opened: Option<PrincipalName>,
)
    ensures
        spec_tgs_header_client(12, false, false, opened) == opened,
        msg_type != 12 || use_session_key || wants_mutual || opened is None
            <==> spec_tgs_header_client(msg_type, use_session_key, wants_mutual, opened) is None,
{
}

/// The client that a refused TGS request's KRB-ERROR names.
pub fn tgs_header_client(
    msg_type: i32,
    use_session_key: bool,
    wants_mutual: bool,
    opened: Option<PrincipalName>,
) -> (r: Option<PrincipalName>)
    ensures
        r == spec_tgs_header_client(msg_type, use_session_key, wants_mutual, opened),
{
    if msg_type != MSG_TGS_REQ || use_session_key || wants_mutual {
        return None;
    }
    opened
}

/// Which request a datagram holds.
#[derive(Clone, Copy, Debug, PartialEq, Eq, Structural)]
pub enum Dispatch {
    /// None that is answered.
    Drop,
    /// An AS request.
    As,
    /// A TGS request.
    Tgs,
}

/// Which request a datagram holds, by its first octet. `as_version` and
/// `tgs_version` are the protocol versions where it reads as one or the
/// other.
pub fn handle_inner(raw: &[u8], as_version: Option<i32>, tgs_version: Option<i32>) -> (r: Dispatch)
    ensures
        r == (if raw@.len() > 0 && raw@[0] == 0x6a && as_version == Some(PVNO) {
            Dispatch::As
        } else if raw@.len() > 0 && raw@[0] == 0x6c && tgs_version == Some(PVNO) {
            Dispatch::Tgs
        } else {
            Dispatch::Drop
        }),
{
    if raw.len() == 0 {
        return Dispatch::Drop;
    }
    match raw[0] {
        0x6a => match as_version {
            Some(v) => if v == PVNO {
                Dispatch::As
            } else {
                Dispatch::Drop
            },
            None => Dispatch::Drop,
        },
        0x6c => match tgs_version {
            Some(v) => if v == PVNO {
                Dispatch::Tgs
            } else {
                Dispatch::Drop
            },
            None => Dispatch::Drop,
        },
        _ => Dispatch::Drop,
    }
}

/// What an encoded reply is, for the log.
#[derive(Clone, Copy, Debug, PartialEq, Eq, Structural)]
pub enum ReplyKind {
    /// No reply.
    Nothing,
    /// A KRB-ERROR.
    Refused,
    /// An issued ticket.
    Issued,
}

/// What an encoded reply is, by its first octet.
pub open spec fn spec_reply_kind(bytes: Seq<u8>) -> ReplyKind {
    if bytes.len() == 0 {
        ReplyKind::Nothing
    } else if bytes[0] == 0x7e {
        ReplyKind::Refused
    } else {
        ReplyKind::Issued
    }
}

/// A KRB-ERROR is told by its tag, whatever stands behind it, and so is a ticket
/// of either exchange; no reply is neither.
pub proof fn law_tag_tells_the_reply(rest: Seq<u8>)
    ensures
        spec_reply_kind(seq![0x7eu8] + rest) == ReplyKind::Refused,
        spec_reply_kind(seq![0x6bu8] + rest) == ReplyKind::Issued,
        spec_reply_kind(seq![0x6du8] + rest) == ReplyKind::Issued,
        spec_reply_kind(rest) == ReplyKind::Nothing <==> rest.len() == 0,
        spec_reply_kind(rest) == ReplyKind::Refused <==> rest.len() > 0 && rest[0] == 0x7e,
{
    assert((seq![0x7eu8] + rest)[0] == 0x7e);
    assert((seq![0x6bu8] + rest)[0] == 0x6b);
    assert((seq![0x6du8] + rest)[0] == 0x6d);
}

/// What an encoded reply is.
pub fn reply_kind(bytes: &[u8]) -> (r: ReplyKind)
    ensures
        r == spec_reply_kind(bytes@),
{
    if bytes.len() == 0 {
        ReplyKind::Nothing
    } else if bytes[0] == 0x7e {
        ReplyKind::Refused
    } else {
        ReplyKind::Issued
    }
}

/// The status word that a logged KRB-ERROR shows: one that asks for
/// pre-authentication shows that where it carries none.
pub open spec fn spec_logged_error_text(code: i32, e_text: Seq<char>) -> Seq<char> {
    if code == PREAUTH_REQUIRED && e_text.len() == 0 {
        "NEEDED_PREAUTH"@
    } else {
        e_text
    }
}

/// The log shows the status word of a KRB-ERROR as it is; only one that asks for
/// pre-authentication and carries none shows another.
pub proof fn law_logged_word_is_the_errors(code: i32, e_text: Seq<char>)
    ensures
        e_text.len() > 0 || code != 25 ==> spec_logged_error_text(code, e_text) == e_text,
        spec_logged_error_text(25, Seq::empty()) == "NEEDED_PREAUTH"@,
{
}

/// The status word that a logged KRB-ERROR shows.
pub fn logged_error_text(code: i32, e_text: String) -> (r: String)
    ensures
        r@ == spec_logged_error_text(code, e_text@),
{
    if code == PREAUTH_REQUIRED && e_text.as_str().is_empty() {
        "NEEDED_PREAUTH".to_owned()
    } else {
        e_text
    }
}

/// What a failure inside a FAST channel becomes: the inner KRB-ERROR's code
/// and status word, the data that travels beside it, and the log text.
pub struct FastErrorTerms {
    /// Error code.
    pub code: i32,
    /// Status word.
    pub text: Option<Status>,
    /// Data whose padata travel beside the error.
    pub data: Vec<u8>,
    /// Text for the log.
    pub detail: Option<String>,
}

/// The terms of a failure inside a FAST channel.
pub open spec fn fast_terms(e: Error, t: FastErrorTerms) -> bool {
    match e {
        Error::PreauthRequired { e_data } => t.code == PREAUTH_REQUIRED && t.text is None && t.data
            == e_data && t.detail is None,
        Error::Protocol { code, text, e_data, detail } => t.code == code && t.text == text
            && t.detail == detail && (match e_data {
            Some(d) => t.data == d,
            None => t.data@.len() == 0,
        }),
        Error::Crypto(d) => t.code == PREAUTH_FAILED && t.text == Some(Status::PreauthFailed)
            && t.data@.len() == 0 && t.detail == spec_non_empty(Some(d)),
        Error::Asn1(d) => t.code == GENERIC && t.text == Some(Status::UnknownReason)
            && t.data@.len() == 0 && t.detail == spec_non_empty(Some(d)),
        other => t.code == GENERIC && t.text == Some(Status::UnknownReason) && t.data@.len() == 0
            && (match t.detail {
            Some(s) => log_text(other.spec_message(Seq::empty())) == Some(s@),
            None => log_text(other.spec_message(Seq::empty())) is None,
        }),
    }
}

/// Takes a failure inside a FAST channel apart.
pub fn fast_error_terms(e: Error) -> (r: FastErrorTerms)
    ensures
        fast_terms(e, r),
{
    match e {
        Error::PreauthRequired { e_data } => FastErrorTerms {
            code: PREAUTH_REQUIRED,
            text: None,
            data: e_data,
            detail: None,
        },
        Error::Protocol { code, text, e_data, detail } => FastErrorTerms {
            code,
            text,
            data: match e_data {
                Some(d) => d,
                None => Vec::new(),
            },
            detail,
        },
        Error::Crypto(d) => FastErrorTerms {
            code: PREAUTH_FAILED,
            text: Some(Status::PreauthFailed),
            data: Vec::new(),
            detail: non_empty(Some(d)),
        },
        Error::Asn1(d) => FastErrorTerms {
            code: GENERIC,
            text: Some(Status::UnknownReason),
            data: Vec::new(),
            detail: non_empty(Some(d)),
        },
        other => FastErrorTerms {
            code: GENERIC,
            text: Some(Status::UnknownReason),
            data: Vec::new(),
            detail: non_empty(Some(no_status_message(&other))),
        },
    }
}

/// Puts the inner KRB-ERROR behind the padata that travel with it.
pub fn fast_error_padata(padata: Vec<PaData>, inner_error: Vec<u8>) -> (r: Vec<PaData>)
    ensures
        r@ == padata@.push(PaData { padata_type: PA_FX_ERROR, padata_value: inner_error }),
{
    let mut out = padata;
    out.push(PaData { padata_type: PA_FX_ERROR, padata_value: inner_error });
    out
}

/// What goes out for a failure inside a FAST channel.
pub open spec fn wrapped_error(
    terms: FastErrorTerms,
    wrapped: Result<Vec<u8>, Error>,
) -> Error {
    match wrapped {
        Ok(outer) => if terms.code == PREAUTH_REQUIRED {
            Error::PreauthRequired { e_data: outer }
        } else {
            Error::Protocol {
                code: terms.code,
                text: terms.text,
                e_data: Some(outer),
                detail: terms.detail,
            }
        },
        Err(e) => e,
    }
}

/// What goes out for a failure inside a FAST channel, once its padata are
/// wrapped (`wrapped`): the same code, with the wrapped padata as data.
pub fn fast_error_reply(terms: FastErrorTerms, wrapped: Result<Vec<u8>, Error>) -> (r: Error)
    ensures
        r == wrapped_error(terms, wrapped),
{
    match wrapped {
        Ok(outer) => if terms.code == PREAUTH_REQUIRED {
            Error::PreauthRequired { e_data: outer }
        } else {
            Error::Protocol {
                code: terms.code,
                text: terms.text,
                e_data: Some(outer),
                detail: terms.detail,
            }
        },
        Err(e) => e,
    }
}

/// A ticket has the addresses of the presented one, but a forwarded or proxied
/// one those asked for, unless it is renewed or validated.
pub proof fn law_addresses_are_rewritten(
    o: Flags,
    asked: Option<Vec<HostAddress>>,
    header: Option<Vec<HostAddress>>,
)
    ensures
        (o.has(FORWARDED as int) || o.has(PROXY as int)) && !o.has(RENEW as int) && !o.has(
            VALIDATE as int,
        ) ==> ticket_caddr(o, asked, header) == asked,
        !o.has(FORWARDED as int) && !o.has(PROXY as int) ==> ticket_caddr(o, asked, header)
            == header,
        o.has(RENEW as int) || o.has(VALIDATE as int) ==> ticket_caddr(o, asked, header) == header,
{
}

/// A renewed or validated ticket is for its old server, a referral for the one
/// that answers, and every other for the one asked for.
pub proof fn law_ticket_names_its_server(req: TgsRequest, is_referral: bool)
    ensures
        ({
            let o = req.body.kdc_options;
            &&& o.has(RENEW as int) || o.has(VALIDATE as int) ==> ticket_server(req, is_referral)
                == req.header_sname@
            &&& !o.has(RENEW as int) && !o.has(VALIDATE as int) && is_referral ==> ticket_server(
                req,
                is_referral,
            ) == req.server.name@
            &&& !o.has(RENEW as int) && !o.has(VALIDATE as int) && !is_referral ==> ticket_server(
                req,
                is_referral,
            ) == req.sname@
        }),
{
}

/// The PAC of a ticket got for another user names that user, with the realm on a
/// referral; that of an ordinary ticket names no one else.
pub proof fn law_pac_names_the_user(subject: TgsSubject)
    ensures
        !subject.s4u2self && !subject.s4u2proxy ==> s4u_client_info(subject) is None,
        (subject.s4u2self || subject.s4u2proxy) && !subject.is_referral ==> s4u_client_info(subject)
            == Some(subject.cname@.joined()),
        subject.s4u_subject matches Some(s) ==> (subject.s4u2self || subject.s4u2proxy)
            && subject.is_referral ==> s4u_client_info(subject) == Some(
            s.0@.joined() + seq!['@'] + s.1@,
        ),
{
    if let Some(s) = subject.s4u_subject {
        assert(s.0@.joined() + seq!['@'] =~= s.0@.joined().push('@'));
    }
}

/// A reply proves that it answers a request exactly where the request or its FAST
/// layer holds the datum that asks for it.
pub proof fn law_proof_is_asked_for(padata: Seq<PaData>, fast: Option<&FastFacts>)
    ensures
        wants_enc_pa(padata, fast) <==> {
            ||| exists|i: int|
                0 <= i < padata.len() && (#[trigger] padata[i]).padata_type == PA_REQ_ENC_PA_REP
            ||| (fast matches Some(f) && exists|i: int|
                0 <= i < f.padata@.len() && (#[trigger] f.padata@[i]).padata_type
                    == PA_REQ_ENC_PA_REP)
        },
{
}

/// A reply names its client, and the anonymous one exactly where FAST hides it.
pub proof fn law_reply_names_its_client(
    cname: NameView,
    crealm: Seq<char>,
    fast: Option<&FastFacts>,
)
    ensures
        fast is None ==> reply_client(cname, crealm, fast) == (cname, crealm),
        fast matches Some(f) ==> (f.options@.len() < 2 || !f.options@[1]) ==> reply_client(
            cname,
            crealm,
            fast,
        ) == (cname, crealm),
        fast matches Some(f) ==> f.options@.len() >= 2 && f.options@[1] ==> reply_client(
            cname,
            crealm,
            fast,
        ).0.components == seq!["WELLKNOWN"@, "ANONYMOUS"@],
{
}

/// A reply is under the authenticator's subkey with usage 9 where there is one,
/// and else under the session key with usage 8; it bears the nonce of the FAST
/// layer where there is one; its ticket's PAC is signed by the ticket's own key
/// exactly where that is for another realm's ticket-granting service, and is that
/// of the subject unless it is on behalf of a user.
pub proof fn law_answer_is_planned(
    p: TgsPlan,
    policy: Policy,
    realm: Seq<char>,
    req: TgsRequest,
    subject: TgsSubject,
    flags: Flags,
    subject_pac: bool,
    subkey: bool,
    padata: Seq<PaData>,
    fast: Option<&FastFacts>,
)
    requires
        is_tgs_plan(
            p,
            policy,
            realm,
            req,
            subject,
            flags,
            subject_pac,
            subkey,
            padata,
            fast,
        ),
    ensures
        subkey ==> p.reply_key == ReplyKey::Subkey && p.usage == 9,
        !subkey ==> p.reply_key == ReplyKey::Session && p.usage == 8,
        fast is None ==> p.nonce == req.body.nonce,
        fast matches Some(f) ==> p.nonce == f.nonce,
        p.pac_key == PacKey::TicketKey <==> req.server.name@.components.len() == 2
            && req.server.name@.components[0] == "krbtgt"@ && req.server.name@.components[1]
            != realm,
        p.copies_pac <==> subject_pac && !subject.s4u2self,
        p.extends_delegation ==> subject.s4u2proxy && subject_pac && !subject.is_crossrealm,
        subject.s4u2proxy && subject_pac && !subject.is_crossrealm && subject.stkt is Some
            ==> p.extends_delegation,
        p.include_pac ==> subject_pac && !policy.disable_pac && !flags.has(ANONYMOUS as int),
        subject_pac && !policy.disable_pac && !flags.has(ANONYMOUS as int)
            && req.server.attributes & KDB_NO_AUTH_DATA_REQUIRED == 0 ==> p.include_pac,
{
}

/// The data inside a reply are what is given, then the proof, then the one option
/// that is honoured, each only where it is there.
pub proof fn law_inner_data_are_in_order(
    extra: PaData,
    shown: Seq<PaData>,
    option: PaData,
)
    ensures
        enc_padata(Some(extra), Some(shown), true, option) == seq![extra] + shown + seq![option],
        enc_padata(None, Some(shown), false, option) == shown,
        enc_padata(None, None, true, option) == seq![option],
        enc_padata(Some(extra), None, false, option) == seq![extra],
        enc_padata(None, None, false, option).len() == 0,
{
    let none = Seq::<PaData>::empty();
    assert(none + shown + none =~= shown);
    assert(none + none + seq![option] =~= seq![option]);
    assert(seq![extra] + none + none =~= seq![extra]);
}

/// An error is about the server of its request, in the realm of its request, and
/// about the local ticket-granting service where it names none; it names the
/// client of its request, unless FAST hides it.
pub proof fn law_error_names_the_request(
    b: &KdcReqBody,
    store_realm: Seq<char>,
    stand_in: Seq<char>,
    realm: Seq<char>,
)
    ensures
        b.realm@.len() > 0 && all_ascii(b.realm@) ==> error_realm(Some(b), store_realm, stand_in)
            == b.realm@,
        b.realm@.len() == 0 && all_ascii(store_realm) ==> error_realm(
            Some(b),
            store_realm,
            stand_in,
        ) == store_realm,
        all_ascii(store_realm) ==> error_realm(None, store_realm, stand_in) == store_realm,
        b.sname matches Some(n) ==> error_server(Some(b), realm) == n@,
        b.sname is None ==> error_server(Some(b), realm).components == seq!["krbtgt"@, realm],
        error_server(None, realm).components == seq!["krbtgt"@, realm],
        b.cname matches Some(n) ==> error_client(Some(b), realm, false) == Some((n@, realm)),
        b.cname is None ==> error_client(Some(b), realm, false) is None && error_client(
            Some(b),
            realm,
            true,
        ) is None,
        error_client(None, realm, false) is None,
{
}

/// A failed initial request is answered with its own code and status word, with
/// the data of a missing pre-authentication, and as a failed pre-authentication
/// where the crypto layer failed; one that is to be discarded is not answered.
pub proof fn law_initial_failure_is_answered(e: Error, r: ErrorReply)
    requires
        as_error_reply(e, r),
    ensures
        e matches Error::Protocol { code, text, e_data, .. } ==> code != DISCARD ==> (r
            matches ErrorReply::Refusal { code: c, text: t, e_data: d, .. } && c == code && t
            == text && d == e_data),
        e matches Error::Protocol { code, .. } ==> code == DISCARD ==> r is Silence,
        e matches Error::PreauthRequired { e_data } ==> (r matches ErrorReply::Refusal {
            code: c,
            e_data: d,
            ..
        } && c == 25 && d == Some(e_data)),
        e is Crypto ==> (r matches ErrorReply::Refusal { code: c, e_data: d, .. } && c == 24 && d
            is None),
        !(e is Protocol) && !(e is PreauthRequired) && !(e is Crypto) ==> (r
            matches ErrorReply::Refusal { code: c, e_data: d, .. } && c == 60 && d is None),
{
}

/// A failed TGS request is answered with its own code and status word, and as a
/// broken message where the crypto layer failed.
pub proof fn law_ticket_failure_is_answered(e: Error, r: ErrorReply)
    requires
        tgs_error_reply(e, r),
    ensures
        e matches Error::Protocol { code, text, e_data, .. } ==> (r matches ErrorReply::Refusal {
            code: c,
            text: t,
            e_data: d,
            ..
        } && c == code && t == text && d == e_data),
        e is Crypto ==> (r matches ErrorReply::Refusal { code: c, text: t, .. } && c == 31 && t
            == Some(Status::ProcessTgs)),
        !(e is Protocol) && !(e is Crypto) ==> (r matches ErrorReply::Refusal {
            code: c,
            text: t,
            ..
        } && c == 60 && t == Some(Status::ProcessTgs)),
{
}

/// A failure inside FAST keeps its code, status word and data, and goes out with
/// the wrapped error as its data.
pub proof fn law_wrapped_failure_keeps_its_code(
    e: Error,
    t: FastErrorTerms,
    outer: Vec<u8>,
    fault: Error,
)
    requires
        fast_terms(e, t),
    ensures
        e matches Error::Protocol { code, text, .. } ==> t.code == code && t.text == text,
        e matches Error::Protocol { e_data: Some(d), .. } ==> t.data == d,
        e matches Error::PreauthRequired { e_data } ==> t.code == 25 && t.data == e_data,
        e is Crypto ==> t.code == 24,
        t.code == 25 ==> wrapped_error(t, Ok(outer)) == (Error::PreauthRequired { e_data: outer }),
        t.code != 25 ==> (wrapped_error(t, Ok(outer)) matches Error::Protocol {
            code,
            text,
            e_data,
            ..
        } && code == t.code && text == t.text && e_data == Some(outer)),
        wrapped_error(t, Err(fault)) == fault,
{
}

/// An empty text is no text for the log, and any other is kept.
pub proof fn law_empty_texts_are_none(s: Seq<char>, t: Option<String>)
    ensures
        log_text(s) is None <==> s.len() == 0,
        log_text(s) is Some ==> log_text(s) == Some(s),
        spec_non_empty(t) is Some <==> t is Some && t->0@.len() > 0,
        spec_non_empty(t) is Some ==> spec_non_empty(t) == t,
        log_detail(t) is Some <==> spec_non_empty(t) is Some,
{
}

/// A failure that leaves a layer keeps its code: one that asks for
/// pre-authentication still does, with the layer as its data, and one whose layer
/// could not be made is that failure.
pub proof fn law_wrapped_failure_keeps_its_kind(terms: FastErrorTerms, w: Vec<u8>, e: Error)
    ensures
        wrapped_error(terms, Err(e)) == e,
        terms.code == 25 <==> wrapped_error(terms, Ok(w)) is PreauthRequired,
        terms.code == 25 ==> wrapped_error(terms, Ok(w)) == (Error::PreauthRequired { e_data: w }),
        terms.code != 25 ==> wrapped_error(terms, Ok(w)) == (Error::Protocol {
            code: terms.code,
            text: terms.text,
            e_data: Some(w),
            detail: terms.detail,
        }),
{
}

} // verus!
