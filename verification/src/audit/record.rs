//! What is recorded when a request was granted or refused.

use crate::audit::json::{first_members, last_members, object, start_stop_json, start_stop_text};
use crate::audit::{
    addr_view, copy_addr, copy_name, ktypes2str, ktypes_text, make_tkt_id, name_view,
    rep_etypes2str, rep_etypes_text, upper_hex, AuditState, StateView, AUTHN_REQ_CL, ENCR_REP,
    SRVC_PRINC,
};
use crate::error::{Status, SERVER_NOMATCH, S_PRINCIPAL_UNKNOWN};
use crate::flags::{ENC_TKT_IN_SKEY, RENEW, VALIDATE};
use crate::msg::{
    HostAddress, KdcReqBody, PaData, ADDRTYPE_INET, ADDRTYPE_INET6, PA_FOR_USER, PA_FOR_X509_USER,
    PA_PAC_OPTIONS,
};
use crate::num::{decimal, push_decimal};
use crate::osa::text_view;
use crate::outside::sha256_digest;
use crate::slots::Slots;
use crate::store::{Policy, Principal};
use crate::text::chars_of;
use vstd::prelude::*;
use vstd::string::*;

verus! {

/// A call of the audit module.
#[derive(Clone, Copy, Debug, PartialEq, Eq, Structural)]
pub enum AuditEvent {
    /// An AS request.
    AsReq,
    /// A TGS request.
    TgsReq,
    /// Protocol transition.
    S4u2Self,
    /// Constrained delegation.
    S4u2Proxy,
    /// User to user.
    U2u,
}

/// A call of the audit module.
#[derive(Clone, Debug, PartialEq, Eq)]
pub struct AuditCall {
    /// Which.
    pub event: AuditEvent,
    /// The request was granted.
    pub success: bool,
    /// What is recorded.
    pub state: AuditState,
}

/// What a call says.
pub open spec fn call_view(c: AuditCall) -> (AuditEvent, bool, StateView) {
    (c.event, c.success, c.state@)
}

/// What calls say.
pub open spec fn call_views(v: Seq<AuditCall>) -> Seq<(AuditEvent, bool, StateView)> {
    v.map_values(|c: AuditCall| call_view(c))
}

/// How a service acts for a user.
#[derive(Clone, Copy, Debug, PartialEq, Eq, Structural)]
pub enum S4uKind {
    /// Protocol transition.
    Transition,
    /// Constrained delegation.
    Delegation,
}

/// The name of a kind in the log.
pub fn s4u_word(k: S4uKind) -> (r: &'static str)
    ensures
        r@ == (match k {
            S4uKind::Transition => "PROTOCOL-TRANSITION"@,
            S4uKind::Delegation => "CONSTRAINED-DELEGATION"@,
        }),
{
    match k {
        S4uKind::Transition => "PROTOCOL-TRANSITION",
        S4uKind::Delegation => "CONSTRAINED-DELEGATION",
    }
}

/// A datum of a type is there.
pub open spec fn has_padata(v: Seq<PaData>, ty: i32) -> bool {
    exists|i: int| 0 <= i < v.len() && (#[trigger] v[i]).padata_type == ty
}

/// Whether a datum of a type is there.
fn find_padata(v: &[PaData], ty: i32) -> (r: bool)
    ensures
        r == has_padata(v@, ty),
{
    let mut i: usize = 0;
    while i < v.len()
        invariant
            i <= v@.len(),
            forall|k: int| 0 <= k < i ==> (#[trigger] v@[k]).padata_type != ty,
        decreases v@.len() - i,
    {
        if v[i].padata_type == ty {
            return true;
        }
        i = i + 1;
    }
    false
}

/// How a request lets a service act for a user, where it does.
pub open spec fn s4u_kind(padata: Option<Seq<PaData>>, has_tickets: bool) -> Option<S4uKind> {
    match padata {
        None => None,
        Some(v) => if has_padata(v, PA_FOR_USER) || has_padata(v, PA_FOR_X509_USER) {
            Some(S4uKind::Transition)
        } else if has_padata(v, PA_PAC_OPTIONS) && has_tickets {
            Some(S4uKind::Delegation)
        } else {
            None
        },
    }
}

/// How a request lets a service act for a user.
pub fn tgs_s4u_kind(padata: Option<&[PaData]>, has_tickets: bool) -> (r: Option<S4uKind>)
    ensures
        r == s4u_kind(
            match padata {
                Some(v) => Some(v@),
                None => None,
            },
            has_tickets,
        ),
{
    let v: &[PaData] = match padata {
        Some(v) => v,
        None => {
            return None;
        },
    };
    if find_padata(v, PA_FOR_USER) || find_padata(v, PA_FOR_X509_USER) {
        return Some(S4uKind::Transition);
    }
    if find_padata(v, PA_PAC_OPTIONS) && has_tickets {
        return Some(S4uKind::Delegation);
    }
    None
}

/// The first name of a user that could be read.
pub open spec fn is_first_user(v: Seq<PaData>, users: Seq<Option<String>>, i: int) -> bool {
    0 <= i < v.len() && v[i].padata_type == PA_FOR_USER && users[i] is Some && forall|k: int|
        0 <= k < i ==> !((#[trigger] v[k]).padata_type == PA_FOR_USER && users[k] is Some)
}

/// The user that a service acts for: `users` holds, for each datum, the name
/// where it could be read.
pub fn s4u_user(v: &[PaData], users: &[Option<String>]) -> (r: String)
    requires
        users@.len() == v@.len(),
    ensures
        if exists|i: int| is_first_user(v@, users@, i) {
            exists|i: int| is_first_user(v@, users@, i) && r@ == (users@[i]->0)@
        } else {
            r@ == "<unknown>"@
        },
{
    let mut i: usize = 0;
    while i < v.len()
        invariant
            i <= v@.len(),
            users@.len() == v@.len(),
            forall|k: int|
                0 <= k < i ==> !((#[trigger] v@[k]).padata_type == PA_FOR_USER
                    && users@[k] is Some),
        decreases v@.len() - i,
    {
        if v[i].padata_type == PA_FOR_USER {
            match &users[i] {
                Some(s) => {
                    proof {
                        assert(is_first_user(v@, users@, i as int));
                        assert(v@[i as int].padata_type == PA_FOR_USER);
                    }
                    return s.clone();
                },
                None => {},
            }
        }
        i = i + 1;
    }
    "<unknown>".to_owned()
}

/// `pat` stands in `s` at `i`.
pub open spec fn text_at(s: Seq<char>, pat: Seq<char>, i: int) -> bool {
    0 <= i && i + pat.len() <= s.len() && s.subrange(i, i + pat.len()) == pat
}

/// Whether `pat` stands somewhere in `s`.
pub fn contains_text(s: &str, pat: &str) -> (r: bool)
    ensures
        r == exists|i: int| text_at(s@, pat@, i),
{
    let cs = chars_of(s);
    let ps = chars_of(pat);
    if ps.len() > cs.len() {
        proof {
            assert forall|i: int| !text_at(s@, pat@, i) by {}
        }
        return false;
    }
    let mut i: usize = 0;
    while i <= cs.len() - ps.len()
        invariant
            cs@ == s@,
            ps@ == pat@,
            ps@.len() <= cs@.len(),
            i <= cs@.len() - ps@.len() + 1,
            forall|k: int| 0 <= k < i ==> !text_at(s@, pat@, k),
        decreases cs@.len() + 1 - i,
    {
        let mut j: usize = 0;
        let n: usize = cs.len();
        while j < ps.len() && cs[i + j] == ps[j]
            invariant
                n == cs@.len(),
                i + ps@.len() <= n,
                j <= ps@.len(),
                forall|k: int| 0 <= k < j ==> cs@[i + k] == ps@[k],
            decreases ps@.len() - j,
        {
            j = j + 1;
        }
        if j == ps.len() {
            proof {
                assert(s@.subrange(i as int, i + pat@.len()) =~= pat@);
                assert(text_at(s@, pat@, i as int));
            }
            return true;
        }
        proof {
            if text_at(s@, pat@, i as int) {
                assert(s@.subrange(i as int, i + pat@.len())[j as int] == s@[i + j]);
            }
        }
        if i == cs.len() - ps.len() {
            proof {
                assert forall|k: int| !text_at(s@, pat@, k) by {}
            }
            return false;
        }
        i = i + 1;
    }
    proof {
        assert forall|k: int| !text_at(s@, pat@, k) by {}
    }
    false
}

/// The client that the log names: that of the reply, but where the reply hides
/// it that of the ticket in the request.
pub fn tgs_client_name(reply: &str, header: Option<&str>) -> (r: String)
    ensures
        if exists|i: int| text_at(reply@, "WELLKNOWN/ANONYMOUS"@, i) {
            r@ == (match header {
                Some(h) => h@,
                None => "<unknown client>"@,
            })
        } else {
            r@ == reply@
        },
{
    if contains_text(reply, "WELLKNOWN/ANONYMOUS") {
        opt_unparse(header, "<unknown client>")
    } else {
        reply.to_owned()
    }
}

/// A name, or what stands for one that is missing.
pub fn opt_unparse(name: Option<&str>, fallback: &str) -> (r: String)
    ensures
        r@ == (match name {
            Some(n) => n@,
            None => fallback@,
        }),
{
    match name {
        Some(n) => n.to_owned(),
        None => fallback.to_owned(),
    }
}

/// How far a refused TGS request came.
pub open spec fn spec_fail_stage(status: Option<Status>) -> i32 {
    match status {
        Some(Status::LookingUpServer) => SRVC_PRINC,
        Some(Status::UnknownServer) => SRVC_PRINC,
        Some(Status::ServerNotFound) => SRVC_PRINC,
        Some(Status::NullServer) => SRVC_PRINC,
        _ => AUTHN_REQ_CL,
    }
}

/// How far a refused TGS request came.
pub fn tgs_fail_stage(status: Option<Status>) -> (r: i32)
    ensures
        r == spec_fail_stage(status),
{
    match status {
        Some(Status::LookingUpServer) => SRVC_PRINC,
        Some(Status::UnknownServer) => SRVC_PRINC,
        Some(Status::ServerNotFound) => SRVC_PRINC,
        Some(Status::NullServer) => SRVC_PRINC,
        _ => AUTHN_REQ_CL,
    }
}

/// What is said of a refused TGS request besides its status.
pub fn tgs_fail_emsg(code: i32) -> (r: &'static str)
    ensures
        r@ == (if code == S_PRINCIPAL_UNKNOWN {
            "Server not found in Kerberos database"@
        } else {
            ""@
        }),
{
    if code == S_PRINCIPAL_UNKNOWN {
        "Server not found in Kerberos database"
    } else {
        ""
    }
}

/// An IPv4 address as text.
pub open spec fn dotted(a: Seq<u8>) -> Seq<char> {
    decimal(a[0] as nat) + seq!['.'] + decimal(a[1] as nat) + seq!['.'] + decimal(a[2] as nat)
        + seq!['.'] + decimal(a[3] as nat)
}

/// Where a request came from, as text; `v6` is the text of its address where
/// that is an IPv6 address.
pub open spec fn from_text(sender: Option<HostAddress>, v6: Seq<char>) -> Seq<char> {
    match sender {
        None => "<unknown>"@,
        Some(s) => if s.addr_type == ADDRTYPE_INET && s.address@.len() == 4 {
            dotted(s.address@)
        } else if s.addr_type == ADDRTYPE_INET6 && s.address@.len() == 16 {
            v6
        } else {
            "<unknown>"@
        },
    }
}

/// Where a request came from.
pub fn format_from(sender: &Option<HostAddress>, v6: &str) -> (r: String)
    ensures
        r@ == from_text(*sender, v6@),
{
    let s: &HostAddress = match sender {
        Some(s) => s,
        None => {
            return "<unknown>".to_owned();
        },
    };
    if s.addr_type == ADDRTYPE_INET && s.address.len() == 4 {
        let mut out = String::new();
        push_decimal(&mut out, s.address[0] as u64);
        out.push('.');
        push_decimal(&mut out, s.address[1] as u64);
        out.push('.');
        push_decimal(&mut out, s.address[2] as u64);
        out.push('.');
        push_decimal(&mut out, s.address[3] as u64);
        proof {
            assert(out@ =~= dotted(s.address@));
        }
        return out;
    }
    if s.addr_type == ADDRTYPE_INET6 && s.address.len() == 16 {
        return v6.to_owned();
    }
    "<unknown>".to_owned()
}

/// What the log needs to know of a request.
pub struct RequestFacts<'a> {
    /// Its body.
    pub body: &'a KdcReqBody,
    /// Where it came from.
    pub sender: Option<HostAddress>,
    /// The text of that address, where it is an IPv6 address.
    pub sender_v6: &'a str,
    /// Its identifier.
    pub req_id: &'a str,
    /// The client's port.
    pub port: u32,
    /// The client, as the log names it.
    pub client: &'a str,
    /// The server, where the request names one.
    pub server: Option<&'a str>,
    /// The ciphertext of the ticket in the request, where it has one.
    pub header_cipher: Option<&'a [u8]>,
}

/// Encryption types that are numbers of types.
pub open spec fn positive(v: Seq<i32>) -> Seq<i32>
    decreases v.len(),
{
    if v.len() == 0 {
        Seq::empty()
    } else if v.last() > 0 {
        positive(v.drop_last()).push(v.last())
    } else {
        positive(v.drop_last())
    }
}

/// The identifier of the ticket in a request.
pub open spec fn header_id(c: Option<&[u8]>) -> Option<Seq<char>> {
    match c {
        Some(b) => Some(upper_hex(sha256_digest(b@))),
        None => None,
    }
}

/// What is recorded of every request.
pub open spec fn base_state(f: RequestFacts, event: Seq<char>) -> StateView {
    StateView {
        event_name: event,
        stage: AUTHN_REQ_CL,
        tkt_out_id: None,
        tkt_in_id: None,
        req_id: f.req_id@,
        cl_port: f.port,
        cl_addr: addr_view(f.sender),
        status: None,
        req_client: name_view(f.body.cname),
        req_client_realm: match f.body.cname {
            Some(_) => Some(f.body.realm@),
            None => None,
        },
        req_server: name_view(f.body.sname),
        req_server_realm: match f.body.sname {
            Some(_) => Some(f.body.realm@),
            None => None,
        },
        kdc_options: f.body.kdc_options.bits,
        avail_etypes: positive(f.body.etype@),
        tkt_renewed: 0,
        tkt_validated: 0,
    }
}

/// Encryption types that are numbers of types.
fn keep_positive(v: &[i32]) -> (r: Vec<i32>)
    ensures
        r@ == positive(v@),
{
    let mut out: Vec<i32> = Vec::new();
    let mut i: usize = 0;
    proof {
        assert(out@ =~= positive(v@.take(0)));
    }
    while i < v.len()
        invariant
            i <= v@.len(),
            out@ == positive(v@.take(i as int)),
        decreases v@.len() - i,
    {
        proof {
            assert(v@.take(i + 1).drop_last() =~= v@.take(i as int));
        }
        if v[i] > 0 {
            out.push(v[i]);
        }
        i = i + 1;
    }
    proof {
        assert(v@.take(v@.len() as int) =~= v@);
    }
    out
}

/// What is recorded of every request.
fn base(f: &RequestFacts, event_name: &'static str) -> (r: AuditState)
    ensures
        r@ == base_state(*f, event_name@),
{
    AuditState {
        event_name,
        stage: AUTHN_REQ_CL,
        tkt_out_id: None,
        tkt_in_id: None,
        req_id: f.req_id.to_owned(),
        cl_port: f.port,
        cl_addr: copy_addr(&f.sender),
        status: None,
        req_client: copy_name(&f.body.cname),
        req_client_realm: match &f.body.cname {
            Some(_) => Some(f.body.realm.clone()),
            None => None,
        },
        req_server: copy_name(&f.body.sname),
        req_server_realm: match &f.body.sname {
            Some(_) => Some(f.body.realm.clone()),
            None => None,
        },
        kdc_options: f.body.kdc_options.bits,
        avail_etypes: keep_positive(f.body.etype.as_slice()),
        tkt_renewed: 0,
        tkt_validated: 0,
    }
}

/// The identifier of the ticket in a request.
fn tgs_header_tkt_id(c: Option<&[u8]>) -> (r: Option<String>)
    ensures
        text_view(r) == header_id(c),
{
    match c {
        Some(b) => Some(make_tkt_id(b)),
        None => None,
    }
}

/// What is recorded when a TGS request starts.
pub open spec fn tgs_seed(f: RequestFacts) -> StateView {
    StateView { tkt_in_id: header_id(f.header_cipher), ..base_state(f, "TGS_REQ"@) }
}

/// The line of the log.
#[derive(Clone, Debug, PartialEq, Eq)]
pub struct IssueLine {
    /// Kind of the request.
    pub kind: &'static str,
    /// The request was granted.
    pub ok: bool,
    /// Encryption types of the request; none where the server did not match.
    pub req_etypes: Option<String>,
    /// Where the request came from.
    pub from: String,
    /// Status word.
    pub status: String,
    /// When the client authenticated.
    pub authtime: u32,
    /// Encryption types of the reply; none where the server did not match.
    pub etypes: Option<String>,
    /// The client.
    pub client: String,
    /// The server.
    pub server: String,
    /// How a service acts for a user, and for whom: a line of its own.
    pub s4u: Option<(S4uKind, String)>,
    /// What is said besides.
    pub emsg: &'static str,
}

/// What the line of the log says.
#[verifier::ext_equal]
pub struct LineView {
    /// Kind of the request.
    pub kind: Seq<char>,
    /// The request was granted.
    pub ok: bool,
    /// Encryption types of the request.
    pub req_etypes: Option<Seq<char>>,
    /// Where the request came from.
    pub from: Seq<char>,
    /// Status word.
    pub status: Seq<char>,
    /// When the client authenticated.
    pub authtime: u32,
    /// Encryption types of the reply.
    pub etypes: Option<Seq<char>>,
    /// The client.
    pub client: Seq<char>,
    /// The server.
    pub server: Seq<char>,
    /// How a service acts for a user, and for whom.
    pub s4u: Option<(S4uKind, Seq<char>)>,
    /// What is said besides.
    pub emsg: Seq<char>,
}

impl View for IssueLine {
    type V = LineView;

    open spec fn view(&self) -> LineView {
        LineView {
            kind: self.kind@,
            ok: self.ok,
            req_etypes: text_view(self.req_etypes),
            from: self.from@,
            status: self.status@,
            authtime: self.authtime,
            etypes: text_view(self.etypes),
            client: self.client@,
            server: self.server@,
            s4u: match self.s4u {
                Some((k, c)) => Some((k, c@)),
                None => None,
            },
            emsg: self.emsg@,
        }
    }
}

/// What is recorded of a request.
#[derive(Clone, Debug, PartialEq, Eq)]
pub struct Recorded {
    /// The line of the log.
    pub line: IssueLine,
    /// The calls of the audit module, in their order.
    pub calls: Vec<AuditCall>,
}

/// The server, as the log names it.
pub open spec fn server_text(s: Option<&str>) -> Seq<char> {
    match s {
        Some(n) => n@,
        None => "<unknown server>"@,
    }
}

/// What the log needs to know of a reply.
pub struct IssuedFacts<'a> {
    /// Encryption type of the reply.
    pub rep_etype: i32,
    /// Encryption type of the ticket.
    pub tkt_etype: i32,
    /// Type of the session key, and when the client authenticated, where the
    /// ticket could be opened.
    pub opened: Option<(i32, u32)>,
    /// Ciphertext of the ticket.
    pub cipher: &'a [u8],
}

/// The line of a request that was granted.
pub open spec fn granted_line(
    f: RequestFacts,
    g: IssuedFacts,
    kind: Seq<char>,
    s4u: Option<(S4uKind, Seq<char>)>,
) -> LineView {
    LineView {
        kind,
        ok: true,
        req_etypes: Some(ktypes_text(f.body.etype@)),
        from: from_text(f.sender, f.sender_v6@),
        status: "ISSUE"@,
        authtime: match g.opened {
            Some((_, t)) => t,
            None => 0,
        },
        etypes: Some(
            rep_etypes_text(
                g.rep_etype,
                Some(g.tkt_etype),
                match g.opened {
                    Some((k, _)) => Some(k),
                    None => None,
                },
            ),
        ),
        client: f.client@,
        server: server_text(f.server),
        s4u,
        emsg: ""@,
    }
}

/// The line of a request that was granted.
fn issue_line(
    f: &RequestFacts,
    g: &IssuedFacts,
    kind: &'static str,
    s4u: Option<(S4uKind, String)>,
) -> (r: IssueLine)
    ensures
        r@ == granted_line(
            *f,
            *g,
            kind@,
            match s4u {
                Some((k, c)) => Some((k, c@)),
                None => None,
            },
        ),
{
    let (ses, authtime): (Option<i32>, u32) = match g.opened {
        Some((k, t)) => (Some(k), t),
        None => (None, 0),
    };
    IssueLine {
        kind,
        ok: true,
        req_etypes: Some(ktypes2str(f.body.etype.as_slice())),
        from: format_from(&f.sender, f.sender_v6),
        status: "ISSUE".to_owned(),
        authtime,
        etypes: Some(rep_etypes2str(g.rep_etype, Some(g.tkt_etype), ses)),
        client: f.client.to_owned(),
        server: opt_unparse(f.server, "<unknown server>"),
        s4u,
        emsg: "",
    }
}

/// Adds a call.
fn put_call(calls: &mut Vec<AuditCall>, event: AuditEvent, success: bool, state: AuditState)
    ensures
        call_views(final(calls)@) == call_views(old(calls)@).push((event, success, state@)),
{
    calls.push(AuditCall { event, success, state });
    proof {
        assert(call_views(calls@) =~= call_views(old(calls)@).push((event, success, state@)));
    }
}

/// What is recorded of an AS request that was granted: its start, and its
/// ticket.
pub fn as_success(f: &RequestFacts, g: &IssuedFacts) -> (r: Recorded)
    ensures
        r.line@ == granted_line(*f, *g, "AS_REQ"@, None),
        call_views(r.calls@) == seq![
            (AuditEvent::AsReq, true, base_state(*f, "AS_REQ"@)),
            (
                AuditEvent::AsReq,
                true,
                StateView {
                    stage: ENCR_REP,
                    tkt_out_id: Some(upper_hex(sha256_digest(g.cipher@))),
                    ..base_state(*f, "AS_REQ"@)
                },
            ),
        ],
{
    let mut calls: Vec<AuditCall> = Vec::new();
    put_call(&mut calls, AuditEvent::AsReq, true, base(f, "AS_REQ"));
    let line = issue_line(f, g, "AS_REQ", None);
    let mut state = base(f, "AS_REQ");
    state.stage = ENCR_REP;
    state.tkt_out_id = Some(make_tkt_id(g.cipher));
    let ghost sv = state@;
    put_call(&mut calls, AuditEvent::AsReq, true, state);
    proof {
        assert(call_views(calls@) =~= seq![
            (AuditEvent::AsReq, true, base_state(*f, "AS_REQ"@)),
            (AuditEvent::AsReq, true, sv),
        ]);
    }
    Recorded { line, calls }
}

/// The status word of a refusal.
pub open spec fn status_text(e_text: Seq<char>) -> Seq<char> {
    if e_text.len() == 0 {
        "UNKNOWN_REASON"@
    } else {
        e_text
    }
}

/// The status word of a refusal.
fn status_word(e_text: &str) -> (r: String)
    ensures
        r@ == status_text(e_text@),
{
    if e_text.is_empty() {
        "UNKNOWN_REASON".to_owned()
    } else {
        e_text.to_owned()
    }
}

/// The line of a request that was refused.
pub open spec fn refused_line(
    f: RequestFacts,
    kind: Seq<char>,
    status: Seq<char>,
    authtime: u32,
    nomatch: bool,
    emsg: Seq<char>,
) -> LineView {
    LineView {
        kind,
        ok: !nomatch && status == "ISSUE"@,
        req_etypes: if nomatch {
            None
        } else {
            Some(ktypes_text(f.body.etype@))
        },
        from: from_text(f.sender, f.sender_v6@),
        status,
        authtime,
        etypes: if nomatch {
            None
        } else {
            Some(""@)
        },
        client: f.client@,
        server: server_text(f.server),
        s4u: None,
        emsg,
    }
}

/// The line of a request that was refused.
fn refusal_line(
    f: &RequestFacts,
    kind: &'static str,
    status: &str,
    authtime: u32,
    nomatch: bool,
    emsg: &'static str,
) -> (r: IssueLine)
    ensures
        r@ == refused_line(*f, kind@, status@, authtime, nomatch, emsg@),
{
    IssueLine {
        kind,
        ok: !nomatch && crate::text::str_eq(status, "ISSUE"),
        req_etypes: if nomatch {
            None
        } else {
            Some(ktypes2str(f.body.etype.as_slice()))
        },
        from: format_from(&f.sender, f.sender_v6),
        status: status.to_owned(),
        authtime,
        etypes: if nomatch {
            None
        } else {
            Some("".to_owned())
        },
        client: f.client.to_owned(),
        server: opt_unparse(f.server, "<unknown server>"),
        s4u: None,
        emsg,
    }
}

/// What is recorded of an AS request that was refused with a code and a
/// status word: its start, and the status.
pub fn as_failure(f: &RequestFacts, code: i32, e_text: &str) -> (r: Recorded)
    ensures
        r.line@ == refused_line(*f, "AS_REQ"@, status_text(e_text@), 0, false, ""@),
        call_views(r.calls@) == seq![
            (AuditEvent::AsReq, true, base_state(*f, "AS_REQ"@)),
            (
                AuditEvent::AsReq,
                code == 0,
                StateView {
                    status: Some(status_text(e_text@)),
                    ..base_state(*f, "AS_REQ"@)
                },
            ),
        ],
{
    let mut calls: Vec<AuditCall> = Vec::new();
    put_call(&mut calls, AuditEvent::AsReq, true, base(f, "AS_REQ"));
    let status = status_word(e_text);
    let line = refusal_line(f, "AS_REQ", status.as_str(), 0, false, "");
    let mut state = base(f, "AS_REQ");
    state.status = Some(status);
    let ghost sv = state@;
    put_call(&mut calls, AuditEvent::AsReq, code == 0, state);
    proof {
        assert(call_views(calls@) =~= seq![
            (AuditEvent::AsReq, true, base_state(*f, "AS_REQ"@)),
            (AuditEvent::AsReq, code == 0, sv),
        ]);
    }
    Recorded { line, calls }
}

/// The call that a special TGS request makes besides its own.
pub open spec fn special_call(s4u: Option<S4uKind>, u2u: bool) -> Option<(AuditEvent, Seq<char>)> {
    match s4u {
        Some(S4uKind::Transition) => Some((AuditEvent::S4u2Self, "S4U2SELF"@)),
        Some(S4uKind::Delegation) => Some((AuditEvent::S4u2Proxy, "S4U2PROXY"@)),
        None => if u2u {
            Some((AuditEvent::U2u, "U2U"@))
        } else {
            None
        },
    }
}

/// The calls of a TGS request: its start, a special one, and its own.
pub open spec fn tgs_calls(
    f: RequestFacts,
    s4u: Option<S4uKind>,
    success: bool,
    state: StateView,
) -> Seq<(AuditEvent, bool, StateView)> {
    let own = (AuditEvent::TgsReq, success, state);
    match special_call(s4u, f.body.kdc_options.has(ENC_TKT_IN_SKEY as int)) {
        Some((e, name)) => seq![
            (AuditEvent::TgsReq, true, tgs_seed(f)),
            (e, success, StateView { event_name: name, ..state }),
            own,
        ],
        None => seq![(AuditEvent::TgsReq, true, tgs_seed(f)), own],
    }
}

/// The calls of a TGS request.
fn make_tgs_calls(f: &RequestFacts, s4u: Option<S4uKind>, success: bool, state: AuditState) -> (r:
    Vec<AuditCall>)
    ensures
        call_views(r@) == tgs_calls(*f, s4u, success, state@),
{
    let ghost sv = state@;
    let mut calls: Vec<AuditCall> = Vec::new();
    let mut seed = base(f, "TGS_REQ");
    seed.tkt_in_id = tgs_header_tkt_id(f.header_cipher);
    proof {
        assert(seed@ =~= tgs_seed(*f));
        assert(call_views(calls@) =~= Seq::<(AuditEvent, bool, StateView)>::empty());
    }
    put_call(&mut calls, AuditEvent::TgsReq, true, seed);
    match s4u {
        Some(S4uKind::Transition) => {
            put_call(&mut calls, AuditEvent::S4u2Self, success, state.renamed("S4U2SELF"));
        },
        Some(S4uKind::Delegation) => {
            put_call(&mut calls, AuditEvent::S4u2Proxy, success, state.renamed("S4U2PROXY"));
        },
        None => {
            if f.body.kdc_options.bit(ENC_TKT_IN_SKEY) {
                put_call(&mut calls, AuditEvent::U2u, success, state.renamed("U2U"));
            }
        },
    }
    put_call(&mut calls, AuditEvent::TgsReq, success, state);
    proof {
        assert(call_views(calls@) =~= tgs_calls(*f, s4u, success, sv));
    }
    calls
}

/// One where an option was asked for, two where it was not.
pub open spec fn asked(x: bool) -> i32 {
    if x {
        1
    } else {
        2
    }
}

/// What is recorded of a TGS request that was granted.
pub open spec fn tgs_granted_state(f: RequestFacts, g: IssuedFacts) -> StateView {
    StateView {
        stage: ENCR_REP,
        status: Some("ISSUE"@),
        tkt_out_id: Some(upper_hex(sha256_digest(g.cipher@))),
        tkt_in_id: header_id(f.header_cipher),
        tkt_renewed: asked(f.body.kdc_options.has(RENEW as int)),
        tkt_validated: asked(f.body.kdc_options.has(VALIDATE as int)),
        ..base_state(f, "TGS_REQ"@)
    }
}

/// What is recorded of a TGS request that was granted. `s4u` is how it lets a
/// service act for a user, and for whom.
pub fn tgs_success(f: &RequestFacts, g: &IssuedFacts, s4u: Option<(S4uKind, String)>) -> (r:
    Recorded)
    ensures
        r.line@ == granted_line(
            *f,
            *g,
            "TGS_REQ"@,
            match s4u {
                Some((k, c)) => Some((k, c@)),
                None => None,
            },
        ),
        call_views(r.calls@) == tgs_calls(
            *f,
            match s4u {
                Some((k, _)) => Some(k),
                None => None,
            },
            true,
            tgs_granted_state(*f, *g),
        ),
{
    let kind: Option<S4uKind> = match &s4u {
        Some((k, _)) => Some(*k),
        None => None,
    };
    let line = issue_line(f, g, "TGS_REQ", s4u);
    let mut state = base(f, "TGS_REQ");
    state.stage = ENCR_REP;
    state.status = Some("ISSUE".to_owned());
    state.tkt_out_id = Some(make_tkt_id(g.cipher));
    state.tkt_in_id = tgs_header_tkt_id(f.header_cipher);
    state.tkt_renewed = if f.body.kdc_options.bit(RENEW) {
        1
    } else {
        2
    };
    state.tkt_validated = if f.body.kdc_options.bit(VALIDATE) {
        1
    } else {
        2
    };
    proof {
        assert(state@ =~= tgs_granted_state(*f, *g));
    }
    let calls = make_tgs_calls(f, kind, true, state);
    Recorded { line, calls }
}

/// What is recorded of a TGS request that was refused.
pub open spec fn tgs_refused_state(
    f: RequestFacts,
    e_text: Seq<char>,
    status: Option<Status>,
) -> StateView {
    StateView {
        stage: if e_text.len() == 0 {
            AUTHN_REQ_CL
        } else {
            spec_fail_stage(status)
        },
        status: Some(status_text(e_text)),
        tkt_in_id: header_id(f.header_cipher),
        ..base_state(f, "TGS_REQ"@)
    }
}

/// What is recorded of a TGS request that was refused with a code and a status
/// word, whose text is `e_text`. Where the server did not match, the line
/// tells no encryption types.
pub fn tgs_failure(
    f: &RequestFacts,
    code: i32,
    status: Option<Status>,
    e_text: &str,
    authtime: u32,
    s4u: Option<S4uKind>,
) -> (r: Recorded)
    ensures
        r.line@ == refused_line(
            *f,
            "TGS_REQ"@,
            status_text(e_text@),
            authtime,
            code == SERVER_NOMATCH,
            if code == S_PRINCIPAL_UNKNOWN {
                "Server not found in Kerberos database"@
            } else {
                ""@
            },
        ),
        call_views(r.calls@) == tgs_calls(
            *f,
            s4u,
            false,
            tgs_refused_state(*f, e_text@, status),
        ),
{
    let word = status_word(e_text);
    let line = refusal_line(
        f,
        "TGS_REQ",
        word.as_str(),
        authtime,
        code == SERVER_NOMATCH,
        tgs_fail_emsg(code),
    );
    let mut state = base(f, "TGS_REQ");
    state.stage = if e_text.is_empty() {
        AUTHN_REQ_CL
    } else {
        tgs_fail_stage(status)
    };
    state.status = Some(word);
    state.tkt_in_id = tgs_header_tkt_id(f.header_cipher);
    proof {
        assert(state@ =~= tgs_refused_state(*f, e_text@, status));
    }
    let calls = make_tgs_calls(f, s4u, false, state);
    Recorded { line, calls }
}

/// Which kind of request octets are.
#[derive(Clone, Copy, Debug, PartialEq, Eq, Structural)]
pub enum ReqKind {
    /// An AS request.
    As,
    /// A TGS request.
    Tgs,
}

/// Which kind of request octets are, by the first of them.
pub open spec fn kind_of(raw: Seq<u8>) -> Option<ReqKind> {
    if raw.len() == 0 {
        None
    } else if raw[0] == 0x6a {
        Some(ReqKind::As)
    } else if raw[0] == 0x6c {
        Some(ReqKind::Tgs)
    } else {
        None
    }
}

/// Which kind of request is recorded as refused.
pub fn log_failure(raw: &[u8]) -> (r: Option<ReqKind>)
    ensures
        r == kind_of(raw@),
{
    if raw.len() == 0 {
        return None;
    }
    match raw[0] {
        0x6a => Some(ReqKind::As),
        0x6c => Some(ReqKind::Tgs),
        _ => None,
    }
}

/// Which kind of request is recorded as granted: none where there is no reply
/// or the reply is an error.
pub fn log_success(raw: &[u8], reply: &[u8]) -> (r: Option<ReqKind>)
    ensures
        r == (if reply@.len() == 0 || reply@[0] == 0x7e {
            None
        } else {
            kind_of(raw@)
        }),
{
    if reply.len() == 0 || reply[0] == 0x7e {
        return None;
    }
    log_failure(raw)
}

/// The key that a ticket of an entry is opened with: one of the ticket's type,
/// or else the first that is current.
pub fn ticket_key(p: &Principal, etype: i32, policy: &Policy) -> (r: Option<usize>)
    ensures
        ({
            let want = if policy.knows(etype) {
                Some(etype)
            } else {
                None
            };
            if policy.finds_enctype(*p, want, 0, None) {
                policy.finds_enctype(*p, None, 0, r)
            } else {
                policy.finds_enctype(*p, want, 0, r)
            }
        }),
{
    let want: Option<i32> = if policy.etype_known(etype) {
        Some(etype)
    } else {
        None
    };
    match policy.find_enctype(p, want, 0) {
        Some(i) => Some(i),
        None => policy.first_current_key(p),
    }
}

/// The transited realms as the log shows them: the first 125 octets, and
/// whether there are more.
pub open spec fn spec_transited_shown(raw: Seq<u8>) -> (Seq<u8>, bool) {
    if raw.len() > 125 {
        (raw.take(125), true)
    } else {
        (raw, false)
    }
}

/// The log shows the front of the transited realms, all of them where they fit,
/// and says whether any were left out.
pub proof fn law_transited_realms_are_shown(raw: Seq<u8>)
    ensures
        spec_transited_shown(raw).0.len() <= 125,
        spec_transited_shown(raw).0 == raw.take(spec_transited_shown(raw).0.len() as int),
        spec_transited_shown(raw).1 <==> spec_transited_shown(raw).0.len() < raw.len(),
        raw.len() <= 125 ==> spec_transited_shown(raw).0 == raw,
        raw.len() > 125 ==> spec_transited_shown(raw).0.len() == 125,
{
    assert(raw.take(raw.len() as int) =~= raw);
}

/// The transited realms as the log shows them.
pub fn transited_shown(raw: &[u8]) -> (r: (Vec<u8>, bool))
    ensures
        (r.0@, r.1) == spec_transited_shown(raw@),
{
    if raw.len() > 125 {
        let v = crate::bytes::copy_range(raw, 0, 125);
        proof {
            assert(v@ =~= raw@.take(125));
        }
        (v, true)
    } else {
        (crate::bytes::copy(raw), false)
    }
}

/// The audit module that writes each record as JSON.
pub struct JsonAudit;

impl JsonAudit {
    /// The record of a start of the service.
    pub fn kdc_start(&self, success: bool) -> (r: String)
        ensures
            r@ == start_stop_text("KDC_START"@, success),
    {
        start_stop_json("KDC_START", success)
    }

    /// The record of a stop of the service.
    pub fn kdc_stop(&self, success: bool) -> (r: String)
        ensures
            r@ == start_stop_text("KDC_STOP"@, success),
    {
        start_stop_json("KDC_STOP", success)
    }

    /// The record of a call.
    pub fn record(&self, call: &AuditCall) -> (r: String)
        ensures
            r@ == object(first_members(call.state@, call.success) + last_members(call.state@)),
    {
        call.state.to_json(call.success)
    }
}

/// Installs the audit module for the process.
pub fn set_audit<T>(s: &mut Slots<T>, a: T)
    ensures
        final(s).process == Some(a),
        final(s).thread == old(s).thread,
{
    s.process = Some(a);
}

/// Installs the audit module for the thread.
pub fn set_thread_audit<T>(s: &mut Slots<T>, a: T)
    ensures
        final(s).thread == Some(a),
        final(s).process == old(s).process,
{
    s.thread = Some(a);
}

/// Drops the audit module for the thread.
pub fn clear_thread_audit<T>(s: &mut Slots<T>)
    ensures
        final(s).thread is None,
        final(s).process == old(s).process,
{
    s.thread = None;
}

/// The audit module in force.
pub fn current_audit<'a, T>(s: &'a Slots<T>, usual: &'a T) -> (r: &'a T)
    ensures
        *r == s.in_force(*usual),
{
    s.current(usual)
}

/// A request that was refused is never recorded as granted, whatever its
/// status word, unless the word is that of a grant.
pub proof fn law_refusal_is_no_issue(
    f: RequestFacts,
    status: Seq<char>,
    authtime: u32,
    nomatch: bool,
    emsg: Seq<char>,
)
    requires
        status != "ISSUE"@,
    ensures
        !refused_line(f, "TGS_REQ"@, status, authtime, nomatch, emsg).ok,
        !refused_line(f, "AS_REQ"@, status, authtime, nomatch, emsg).ok,
{
}

/// A request lets a service act for a user exactly where it has a datum that names
/// one, and delegates exactly where it has none, has PAC options, and brings a
/// ticket.
pub proof fn law_kind_of_acting(v: Seq<PaData>, has_tickets: bool)
    ensures
        s4u_kind(None, has_tickets) is None,
        s4u_kind(Some(v), has_tickets) == Some(S4uKind::Transition) <==> exists|i: int|
            0 <= i < v.len() && ((#[trigger] v[i]).padata_type == PA_FOR_USER || v[i].padata_type
                == PA_FOR_X509_USER),
        s4u_kind(Some(v), has_tickets) == Some(S4uKind::Delegation) <==> {
            &&& has_tickets
            &&& exists|i: int| 0 <= i < v.len() && (#[trigger] v[i]).padata_type == PA_PAC_OPTIONS
            &&& forall|i: int|
                0 <= i < v.len() ==> (#[trigger] v[i]).padata_type != PA_FOR_USER
                    && v[i].padata_type != PA_FOR_X509_USER
        },
{
}

/// A refused request came as far as the server exactly where its status word says
/// that the server was not found.
pub proof fn law_stage_of_a_refusal(status: Option<Status>)
    ensures
        spec_fail_stage(status) == SRVC_PRINC || spec_fail_stage(status) == AUTHN_REQ_CL,
        status matches Some(s) ==> (spec_fail_stage(status) == SRVC_PRINC <==> s
            is LookingUpServer || s is UnknownServer || s is ServerNotFound || s is NullServer),
        status is None ==> spec_fail_stage(status) == AUTHN_REQ_CL,
        SRVC_PRINC != AUTHN_REQ_CL,
{
}

/// The recorded types are those of the request that are positive, in order.
pub proof fn law_positive_types_are_recorded(v: Seq<i32>, t: i32)
    ensures
        t > 0 ==> positive(v.push(t)) == positive(v).push(t),
        t <= 0 ==> positive(v.push(t)) == positive(v),
        positive(Seq::empty()).len() == 0,
{
    assert(v.push(t).drop_last() =~= v);
}

/// Of each TGS request its start is recorded first and its outcome last, and
/// between them the special kind that it is of, under the same outcome.
pub proof fn law_calls_of_a_request(
    f: RequestFacts,
    s4u: Option<S4uKind>,
    success: bool,
    state: StateView,
)
    ensures
        ({
            let c = tgs_calls(f, s4u, success, state);
            let u2u = f.body.kdc_options.has(ENC_TKT_IN_SKEY as int);
            &&& c[0] == (AuditEvent::TgsReq, true, tgs_seed(f))
            &&& c.last() == (AuditEvent::TgsReq, success, state)
            &&& c.len() == (if s4u is Some || u2u {
                3int
            } else {
                2int
            })
            &&& s4u == Some(S4uKind::Transition) ==> c[1].0 == AuditEvent::S4u2Self && c[1].1
                == success && c[1].2.event_name == "S4U2SELF"@
            &&& s4u == Some(S4uKind::Delegation) ==> c[1].0 == AuditEvent::S4u2Proxy && c[1].1
                == success && c[1].2.event_name == "S4U2PROXY"@
            &&& s4u is None && u2u ==> c[1].0 == AuditEvent::U2u && c[1].1 == success
                && c[1].2.event_name == "U2U"@
        }),
{
}

/// What is recorded of a request is its own: client, server, realm, options,
/// identifier, address and port.
pub proof fn law_request_is_recorded(
    f: RequestFacts,
    g: IssuedFacts,
    e_text: Seq<char>,
    status: Option<Status>,
)
    ensures
        ({
            let a = tgs_granted_state(f, g);
            let b = tgs_refused_state(f, e_text, status);
            &&& a.req_id == f.req_id@ && b.req_id == f.req_id@
            &&& a.cl_port == f.port && b.cl_port == f.port
            &&& a.kdc_options == f.body.kdc_options.bits && b.kdc_options == f.body.kdc_options.bits
            &&& f.body.cname matches Some(n) ==> a.req_client == Some(n@) && b.req_client == Some(
                n@,
            ) && a.req_client_realm == Some(f.body.realm@)
            &&& f.body.sname matches Some(n) ==> a.req_server == Some(n@) && b.req_server == Some(
                n@,
            ) && a.req_server_realm == Some(f.body.realm@)
            &&& a.status == Some("ISSUE"@)
            &&& e_text.len() > 0 ==> b.status == Some(e_text)
            &&& e_text.len() == 0 ==> b.status == Some("UNKNOWN_REASON"@)
            &&& a.tkt_out_id is Some && b.tkt_out_id is None
            &&& a.tkt_in_id is Some <==> f.header_cipher is Some
            &&& b.tkt_in_id is Some <==> f.header_cipher is Some
            &&& a.tkt_renewed == 1 <==> f.body.kdc_options.has(RENEW as int)
            &&& a.tkt_validated == 1 <==> f.body.kdc_options.has(VALIDATE as int)
            &&& a.tkt_renewed == 1 || a.tkt_renewed == 2
            &&& b.tkt_renewed == 0
        }),
{
}

/// A request is told by its first octet.
pub proof fn law_request_is_told_by_its_tag(raw: Seq<u8>)
    ensures
        kind_of(raw) == Some(ReqKind::As) <==> raw.len() > 0 && raw[0] == 0x6a,
        kind_of(raw) == Some(ReqKind::Tgs) <==> raw.len() > 0 && raw[0] == 0x6c,
{
}

/// The line of a granted request says so, with its client, its server and when the
/// client authenticated; that of a refused one has no types where the server did
/// not match.
pub proof fn law_line_says_what_was_done(
    f: RequestFacts,
    g: IssuedFacts,
    kind: Seq<char>,
    s4u: Option<(S4uKind, Seq<char>)>,
    status: Seq<char>,
    authtime: u32,
    nomatch: bool,
    emsg: Seq<char>,
)
    ensures
        ({
            let a = granted_line(f, g, kind, s4u);
            let b = refused_line(f, kind, status, authtime, nomatch, emsg);
            &&& a.ok && a.status == "ISSUE"@
            &&& a.client == f.client@ && b.client == f.client@
            &&& f.server matches Some(n) ==> a.server == n@ && b.server == n@
            &&& g.opened matches Some(o) ==> a.authtime == o.1
            &&& g.opened is None ==> a.authtime == 0
            &&& a.s4u == s4u && b.s4u is None
            &&& b.status == status && b.authtime == authtime && b.emsg == emsg
            &&& nomatch ==> b.req_etypes is None && b.etypes is None && !b.ok
            &&& !nomatch ==> b.req_etypes == Some(ktypes_text(f.body.etype@))
        }),
{
}

/// The user of a request is the first that a datum for a user names.
pub proof fn law_first_user_is_one(v: Seq<PaData>, users: Seq<Option<String>>, i: int, j: int)
    requires
        is_first_user(v, users, i),
        0 <= j < v.len(),
        v[j].padata_type == 129,
        users[j] is Some,
    ensures
        i <= j,
        v[i].padata_type == 129,
        users[i] is Some,
{
}

/// A sender is shown by its address where it is one of four or of sixteen octets of
/// the right type, and otherwise as unknown.
pub proof fn law_sender_is_shown(s: HostAddress, v6: Seq<char>)
    ensures
        from_text(None, v6) == "<unknown>"@,
        s.addr_type == 2 && s.address@.len() == 4 ==> from_text(Some(s), v6) == dotted(s.address@),
        s.addr_type == 24 && s.address@.len() == 16 ==> from_text(Some(s), v6) == v6,
        s.addr_type == 2 && s.address@.len() != 4 ==> from_text(Some(s), v6) == "<unknown>"@,
        s.addr_type == 24 && s.address@.len() != 16 ==> from_text(Some(s), v6) == "<unknown>"@,
        s.addr_type != 2 && s.addr_type != 24 ==> from_text(Some(s), v6) == "<unknown>"@,
{
}

/// A refused TGS request without a status word is put down to the client's
/// authentication, and one with a word to the stage that the word tells.
pub proof fn law_refused_request_has_a_stage(
    f: RequestFacts,
    e_text: Seq<char>,
    status: Option<Status>,
)
    ensures
        e_text.len() == 0 ==> tgs_refused_state(f, e_text, status).stage == AUTHN_REQ_CL,
        e_text.len() > 0 ==> tgs_refused_state(f, e_text, status).stage == spec_fail_stage(status),
        asked(true) == 1 && asked(false) == 2,
{
}

} // verus!
