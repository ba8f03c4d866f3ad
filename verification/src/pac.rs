//! Privilege attribute certificates: what decisions read of one, and how one
//! is assembled and signed.

use crate::bytes::{append, le32, put_le32, zeros};
use crate::text::{
    chars_of, last_position, last_position_of, lemma_last_position, range_string, str_eq,
};
use vstd::prelude::*;
use vstd::string::*;

pub mod accepted;
pub mod delegation;
pub mod reply;

verus! {

/// Whom a PAC is for, as its client-info buffer says.
#[derive(Clone, Debug, PartialEq, Eq)]
pub struct ClientInfo {
    /// Time of initial authentication.
    pub authtime: u32,
    /// The name.
    pub name: String,
}

/// The delegation buffer of a PAC.
#[derive(Clone, Debug, PartialEq, Eq)]
pub struct DelegationInfo {
    /// The service delegated to.
    pub proxy_target: String,
    /// The services that delegated, in order.
    pub transited_services: Vec<String>,
}

/// What decisions read of a PAC. A buffer that is missing, repeated or
/// malformed is absent.
#[derive(Clone, Debug, PartialEq, Eq)]
pub struct PacFacts {
    /// Client-info buffer.
    pub client_info: Option<ClientInfo>,
    /// Delegation buffer.
    pub delegation: Option<DelegationInfo>,
}

impl PacFacts {
    /// The PAC is for `name`, authenticated at `authtime`.
    pub open spec fn names_client(&self, authtime: u32, name: Seq<char>) -> bool {
        self.client_info matches Some(c) && c.authtime == authtime && c.name@ == name
    }
}

/// Whether the PAC is for `name`, or for `name@realm` where a realm is
/// given, authenticated at `authtime`.
pub fn pac_client_info_eq(
    pac: &PacFacts,
    authtime: u32,
    name: &str,
    realm: Option<&str>,
) -> (r: bool)
    ensures
        r == pac.names_client(
            authtime,
            match realm {
                Some(x) => name@.push('@') + x@,
                None => name@,
            },
        ),
{
    let info = match &pac.client_info {
        Some(c) => c,
        None => {
            return false;
        },
    };
    let mut want = name.to_owned();
    if let Some(x) = realm {
        want.push('@');
        want.append(x);
    }
    info.authtime == authtime && str_eq(info.name.as_str(), want.as_str())
}

/// How often `c` stands in `s`.
pub open spec fn count(s: Seq<char>, c: char) -> nat
    decreases s.len(),
{
    if s.len() == 0 {
        0
    } else if s.last() == c {
        count(s.drop_last(), c) + 1
    } else {
        count(s.drop_last(), c)
    }
}

fn count_char(cs: &[char], c: char) -> (r: usize)
    ensures
        r == count(cs@, c),
{
    let mut n: usize = 0;
    let mut i: usize = 0;
    while i < cs.len()
        invariant
            n <= i <= cs.len(),
            n == count(cs@.take(i as int), c),
        decreases cs.len() - i,
    {
        proof {
            assert(cs@.take(i + 1).drop_last() =~= cs@.take(i as int));
            assert(cs@.take(i + 1).last() == cs@[i as int]);
        }
        if cs[i] == c {
            n = n + 1;
        }
        i = i + 1;
    }
    proof {
        assert(cs@.take(cs@.len() as int) =~= cs@);
    }
    n
}

/// A client name that carries its realm has one `@`, or two where the user
/// part is itself a name with a suffix.
pub open spec fn carries_realm(name: Seq<char>) -> bool {
    count(name, '@') == 1 || count(name, '@') == 2
}

/// User, realm and time of authentication of a PAC whose client name carries
/// its realm; the realm stands behind the last `@`.
pub fn pac_princ_with_realm(pac: &PacFacts) -> (r: Option<(String, String, u32)>)
    ensures
        r is Some <==> (pac.client_info matches Some(c) && carries_realm(c.name@)),
        r matches Some(t) ==> pac.client_info matches Some(c) && {
            let at = last_position(c.name@, '@');
            &&& t.0@ == c.name@.take(at)
            &&& t.1@ == c.name@.skip(at + 1)
            &&& t.2 == c.authtime
        },
{
    let info = match &pac.client_info {
        Some(c) => c,
        None => {
            return None;
        },
    };
    let cs = chars_of(info.name.as_str());
    let n: usize = count_char(cs.as_slice(), '@');
    if n != 1 && n != 2 {
        return None;
    }
    match last_position_of(cs.as_slice(), '@') {
        Some(at) => {
            let user = range_string(cs.as_slice(), 0, at);
            let realm = range_string(cs.as_slice(), at + 1, cs.len());
            proof {
                assert(user@ =~= info.name@.take(at as int));
                assert(realm@ =~= info.name@.skip(at + 1));
            }
            Some((user, realm, info.authtime))
        },
        None => {
            proof {
                lemma_last_position(cs@, '@');
                lemma_absent_counts_zero(cs@, '@');
            }
            None
        },
    }
}

/// A character that stands nowhere is counted zero times.
proof fn lemma_absent_counts_zero(s: Seq<char>, c: char)
    requires
        forall|k: int| 0 <= k < s.len() ==> s[k] != c,
    ensures
        count(s, c) == 0,
    decreases s.len(),
{
    if s.len() > 0 {
        lemma_absent_counts_zero(s.drop_last(), c);
    }
}

/// The PAC vouches for a delegation by `client` (name with realm) at
/// `authtime`, to `target` where one is given.
pub open spec fn spec_deleg_pac(
    pac: PacFacts,
    authtime: u32,
    client: Seq<char>,
    target: Option<Seq<char>>,
) -> bool {
    &&& pac.client_info matches Some(c) && carries_realm(c.name@) && c.authtime == authtime
    &&& pac.delegation matches Some(d) && {
        &&& target matches Some(t) ==> d.proxy_target@ == t
        &&& d.transited_services@.len() > 0
        &&& d.transited_services@.last()@ == client
    }
}

pub open spec fn str_view(s: Option<&str>) -> Option<Seq<char>> {
    match s {
        Some(x) => Some(x@),
        None => None,
    }
}

/// Whether the PAC vouches for a delegation by `client`.
pub fn verify_deleg_pac(
    pac: &PacFacts,
    authtime: u32,
    client: &str,
    target: Option<&str>,
) -> (r: bool)
    ensures
        r == spec_deleg_pac(*pac, authtime, client@, str_view(target)),
{
    match pac_princ_with_realm(pac) {
        Some((_, _, at)) => {
            if at != authtime {
                return false;
            }
        },
        None => {
            return false;
        },
    }
    let di = match &pac.delegation {
        Some(d) => d,
        None => {
            return false;
        },
    };
    if let Some(t) = target {
        if !str_eq(di.proxy_target.as_str(), t) {
            return false;
        }
    }
    let n: usize = di.transited_services.len();
    if n == 0 {
        return false;
    }
    str_eq(di.transited_services[n - 1].as_str(), client)
}

/// The logon information buffer.
pub const PAC_LOGON_INFO: u32 = 1;

/// The server signature.
pub const PAC_SERVER_CHECKSUM: u32 = 6;

/// The KDC signature.
pub const PAC_PRIVSVR_CHECKSUM: u32 = 7;

/// The client information buffer.
pub const PAC_CLIENT_INFO: u32 = 10;

/// The delegation information buffer.
pub const PAC_DELEGATION_INFO: u32 = 11;

/// The user principal name buffer.
pub const PAC_UPN_DNS_INFO: u32 = 12;

/// The ticket signature.
pub const PAC_TICKET_CHECKSUM: u32 = 16;

/// The attributes buffer.
pub const PAC_ATTRIBUTES_INFO: u32 = 17;

/// The requester buffer.
pub const PAC_REQUESTER_SID: u32 = 18;

/// The signature over the whole PAC.
pub const PAC_FULL_CHECKSUM: u32 = 19;

/// One buffer of a PAC.
#[derive(Clone, Debug, PartialEq, Eq)]
pub struct PacBuffer {
    /// Kind.
    pub kind: u32,
    /// Contents.
    pub data: Vec<u8>,
}

/// What a PAC buffer holds.
#[verifier::ext_equal]
pub struct BufferView {
    /// Kind.
    pub kind: u32,
    /// Contents.
    pub data: Seq<u8>,
}

impl View for PacBuffer {
    type V = BufferView;

    open spec fn view(&self) -> BufferView {
        BufferView { kind: self.kind, data: self.data@ }
    }
}

/// What a list of buffers holds.
pub open spec fn buffers_view(bs: Seq<PacBuffer>) -> Seq<BufferView> {
    bs.map_values(|b: PacBuffer| b@)
}

/// Whether a buffer kind is a signature.
pub open spec fn signature_kind(kind: u32) -> bool {
    kind == PAC_SERVER_CHECKSUM || kind == PAC_PRIVSVR_CHECKSUM || kind == PAC_TICKET_CHECKSUM
        || kind == PAC_FULL_CHECKSUM
}

/// Whether a buffer kind is a signature.
pub fn is_pac_signature(kind: u32) -> (r: bool)
    ensures
        r == signature_kind(kind),
{
    kind == PAC_SERVER_CHECKSUM || kind == PAC_PRIVSVR_CHECKSUM || kind == PAC_TICKET_CHECKSUM
        || kind == PAC_FULL_CHECKSUM
}

/// The buffers that are no signatures, in order.
pub open spec fn unsigned(bs: Seq<BufferView>) -> Seq<BufferView> {
    bs.filter(|b: BufferView| !signature_kind(b.kind))
}

/// Takes the signatures out.
pub fn strip_signatures(bs: &mut Vec<PacBuffer>)
    ensures
        buffers_view(final(bs)@) == unsigned(buffers_view(old(bs)@)),
{
    let ghost orig = buffers_view(bs@);
    let ghost keep = |b: BufferView| !signature_kind(b.kind);
    let ghost mut j: int = 0;
    let mut i: usize = 0;
    proof {
        assert(orig.take(0).filter(keep) =~= Seq::<BufferView>::empty()) by {
            reveal(Seq::filter);
        }
        assert(orig.skip(0) =~= orig);
    }
    while i < bs.len()
        invariant
            i <= bs.len(),
            0 <= j <= orig.len(),
            keep == (|b: BufferView| !signature_kind(b.kind)),
            buffers_view(bs@).take(i as int) == orig.take(j).filter(keep),
            buffers_view(bs@).skip(i as int) == orig.skip(j),
        decreases bs.len() - i,
    {
        let ghost before = buffers_view(bs@);
        proof {
            assert(before.skip(i as int).len() == orig.skip(j).len());
            assert(before[i as int] == before.skip(i as int)[0]);
            assert(orig[j] == orig.skip(j)[0]);
            lemma_filter_step(orig, j, keep);
        }
        if is_pac_signature(bs[i].kind) {
            let _ = bs.remove(i);
            proof {
                let after = buffers_view(bs@);
                assert(after =~= before.remove(i as int));
                assert(after.take(i as int) =~= before.take(i as int));
                assert(after.skip(i as int) =~= before.skip(i as int).drop_first());
                assert(orig.skip(j + 1) =~= orig.skip(j).drop_first());
            }
        } else {
            i = i + 1;
            proof {
                assert(before.take(i as int) =~= before.take(i - 1).push(before[i - 1]));
                assert(before.skip(i as int) =~= before.skip(i - 1).drop_first());
                assert(orig.skip(j + 1) =~= orig.skip(j).drop_first());
            }
        }
        proof {
            j = j + 1;
        }
    }
    proof {
        assert(buffers_view(bs@).skip(i as int).len() == 0);
        assert(orig.skip(j).len() == 0);
        assert(orig.take(j) =~= orig);
        assert(buffers_view(bs@).take(i as int) =~= buffers_view(bs@));
    }
}

proof fn lemma_filter_step(s: Seq<BufferView>, j: int, keep: spec_fn(BufferView) -> bool)
    requires
        0 <= j < s.len(),
    ensures
        s.take(j + 1).filter(keep) == (if keep(s[j]) {
            s.take(j).filter(keep).push(s[j])
        } else {
            s.take(j).filter(keep)
        }),
{
    reveal(Seq::filter);
    assert(s.take(j + 1).drop_last() =~= s.take(j));
    assert(s.take(j + 1).last() == s[j]);
}

/// A signature buffer: the checksum type, then the checksum.
pub open spec fn signature_data(cksumtype: i32, mac: Seq<u8>) -> Seq<u8> {
    le32(cksumtype as u32) + mac
}

/// A signature buffer's contents.
pub fn signature_buffer(cksumtype: i32, mac: &[u8]) -> (r: Vec<u8>)
    ensures
        r@ == signature_data(cksumtype, mac@),
{
    let mut out: Vec<u8> = Vec::new();
    put_le32(&mut out, cksumtype as u32);
    append(&mut out, mac);
    proof {
        assert(out@ =~= signature_data(cksumtype, mac@));
    }
    out
}

/// The buffers with the logon information set to `logon`: in place of the
/// first such buffer, or in front where there is none.
pub open spec fn with_logon(bs: Seq<BufferView>, logon: Seq<u8>) -> Seq<BufferView> {
    let i = kind_position(bs, PAC_LOGON_INFO);
    let b = BufferView { kind: PAC_LOGON_INFO, data: logon };
    if i < bs.len() {
        bs.update(i, b)
    } else {
        seq![b] + bs
    }
}

/// The place of the first buffer of `kind`, or the length where there is
/// none.
pub open spec fn kind_position(bs: Seq<BufferView>, kind: u32) -> int
    decreases bs.len(),
{
    if bs.len() == 0 {
        0
    } else if bs[0].kind == kind {
        0
    } else {
        1 + kind_position(bs.drop_first(), kind)
    }
}

/// The place of the first buffer of `kind`, or the length where there is
/// none.
pub fn find_kind(bs: &[PacBuffer], kind: u32) -> (r: usize)
    ensures
        r == kind_position(buffers_view(bs@), kind),
        r <= bs.len(),
        r < bs.len() ==> bs@[r as int].kind == kind,
{
    let ghost v = buffers_view(bs@);
    let mut i: usize = 0;
    proof {
        assert(v.skip(0) =~= v);
    }
    while i < bs.len()
        invariant
            i <= bs.len(),
            v == buffers_view(bs@),
            kind_position(v, kind) == i + kind_position(v.skip(i as int), kind),
        decreases bs.len() - i,
    {
        proof {
            assert(v.skip(i as int).drop_first() =~= v.skip(i + 1));
            assert(v.skip(i as int)[0] == bs@[i as int]@);
        }
        if bs[i].kind == kind {
            return i;
        }
        i = i + 1;
    }
    i
}

/// The buffers of a PAC made anew.
#[derive(Clone, Debug, PartialEq, Eq)]
pub struct FreshPac {
    /// Logon information.
    pub logon: Vec<u8>,
    /// Client information.
    pub client_info: Vec<u8>,
    /// User principal name.
    pub upn_dns: Vec<u8>,
    /// Attributes.
    pub attributes: Vec<u8>,
    /// Requester.
    pub requester_sid: Vec<u8>,
}

/// Type and length of the checksums that a key makes.
#[derive(Clone, Copy, Debug, PartialEq, Eq, Structural)]
pub struct SignatureForm {
    /// Checksum type.
    pub cksumtype: i32,
    /// Checksum length.
    pub len: usize,
}

/// A signature buffer with a checksum of zeros.
pub open spec fn blank_signature(kind: u32, form: SignatureForm) -> BufferView {
    BufferView {
        kind,
        data: signature_data(form.cksumtype, Seq::new(form.len as nat, |i: int| 0u8)),
    }
}

/// The buffers of a reply's PAC that are no signatures: the subject's, with
/// the logon information replaced where `logon_override` gives it, or a new
/// set.
pub open spec fn pac_contents(
    subject: Option<Seq<BufferView>>,
    logon_override: Option<Seq<u8>>,
    fresh: FreshPac,
) -> Seq<BufferView> {
    match subject {
        Some(bs) => match logon_override {
            Some(l) => with_logon(unsigned(bs), l),
            None => unsigned(bs),
        },
        None => seq![
            BufferView {
                kind: PAC_LOGON_INFO,
                data: match logon_override {
                    Some(l) => l,
                    None => fresh.logon@,
                },
            },
            BufferView { kind: PAC_CLIENT_INFO, data: fresh.client_info@ },
            BufferView { kind: PAC_UPN_DNS_INFO, data: fresh.upn_dns@ },
            BufferView { kind: PAC_ATTRIBUTES_INFO, data: fresh.attributes@ },
            BufferView { kind: PAC_REQUESTER_SID, data: fresh.requester_sid@ },
        ],
    }
}

/// The blank signatures of a reply's PAC: ticket and full signature for a
/// service ticket, then server and KDC signature.
pub open spec fn blank_signatures(
    is_service_tkt: bool,
    server: SignatureForm,
    kdc: SignatureForm,
) -> Seq<BufferView> {
    (if is_service_tkt {
        seq![
            blank_signature(PAC_TICKET_CHECKSUM, kdc),
            blank_signature(PAC_FULL_CHECKSUM, kdc),
        ]
    } else {
        Seq::empty()
    }) + seq![
        blank_signature(PAC_SERVER_CHECKSUM, server),
        blank_signature(PAC_PRIVSVR_CHECKSUM, kdc),
    ]
}

/// Which checksum is due next.
#[derive(Clone, Copy, Debug, PartialEq, Eq, Structural)]
pub enum SignStep {
    /// The KDC key's checksum over the ticket with a blank PAC.
    Ticket,
    /// The KDC key's checksum over the PAC with server, KDC and full
    /// signature blank.
    Full,
    /// The server key's checksum over the PAC with server and KDC signature
    /// blank.
    Server,
    /// The KDC key's checksum over the server signature.
    Privsvr,
    /// All checksums are in place.
    Done,
}

impl SignStep {
    /// The signature buffer that the step fills.
    pub open spec fn kind(self) -> u32 {
        match self {
            SignStep::Ticket => PAC_TICKET_CHECKSUM,
            SignStep::Full => PAC_FULL_CHECKSUM,
            SignStep::Server => PAC_SERVER_CHECKSUM,
            _ => PAC_PRIVSVR_CHECKSUM,
        }
    }

    /// The step that follows.
    pub open spec fn next(self) -> SignStep {
        match self {
            SignStep::Ticket => SignStep::Full,
            SignStep::Full => SignStep::Server,
            SignStep::Server => SignStep::Privsvr,
            _ => SignStep::Done,
        }
    }
}

/// A PAC on its way to being signed.
#[derive(Clone, Debug, PartialEq, Eq)]
pub struct PacSigning {
    /// The buffers.
    pub buffers: Vec<PacBuffer>,
    /// The checksum that is due.
    pub step: SignStep,
    /// Form of the server key's checksums.
    pub server: SignatureForm,
    /// Form of the KDC key's checksums.
    pub kdc: SignatureForm,
}

/// The buffers with every signature of `kind` set to `data`.
pub open spec fn with_signature(bs: Seq<BufferView>, kind: u32, data: Seq<u8>) -> Seq<BufferView> {
    bs.map_values(
        |b: BufferView|
            if b.kind == kind {
                BufferView { kind, data }
            } else {
                b
            },
    )
}

/// Sets every signature of `kind`.
fn set_sig(bs: &mut Vec<PacBuffer>, kind: u32, cksumtype: i32, mac: &[u8])
    ensures
        buffers_view(final(bs)@) == with_signature(
            buffers_view(old(bs)@),
            kind,
            signature_data(cksumtype, mac@),
        ),
{
    let ghost orig = buffers_view(bs@);
    let ghost want = with_signature(orig, kind, signature_data(cksumtype, mac@));
    let mut i: usize = 0;
    while i < bs.len()
        invariant
            i <= bs.len(),
            bs@.len() == orig.len(),
            want == with_signature(orig, kind, signature_data(cksumtype, mac@)),
            forall|k: int| 0 <= k < i ==> #[trigger] bs@[k]@ == want[k],
            forall|k: int| i <= k < bs@.len() ==> #[trigger] bs@[k]@ == orig[k],
        decreases bs.len() - i,
    {
        let ghost before = bs@;
        if bs[i].kind == kind {
            let b = PacBuffer { kind, data: signature_buffer(cksumtype, mac) };
            bs.set(i, b);
        }
        i = i + 1;
        proof {
            assert forall|k: int| 0 <= k < i implies #[trigger] bs@[k]@ == want[k] by {
                if k < i - 1 {
                    assert(before[k]@ == want[k]);
                } else {
                    assert(before[k]@ == orig[k]);
                }
            }
            assert forall|k: int| i <= k < bs@.len() implies #[trigger] bs@[k]@ == orig[k] by {
                assert(before[k]@ == orig[k]);
            }
        }
    }
    proof {
        assert(buffers_view(bs@) =~= want);
    }
}

fn blank(kind: u32, form: SignatureForm) -> (r: PacBuffer)
    ensures
        r@ == blank_signature(kind, form),
{
    let z = zeros(form.len);
    PacBuffer { kind, data: signature_buffer(form.cksumtype, z.as_slice()) }
}

/// Pushes one buffer.
fn push_buffer(bs: &mut Vec<PacBuffer>, b: PacBuffer)
    ensures
        buffers_view(final(bs)@) == buffers_view(old(bs)@).push(b@),
{
    let ghost before = bs@;
    bs.push(b);
    proof {
        assert(buffers_view(bs@) =~= buffers_view(before).push(b@));
    }
}

pub open spec fn opt_buffers(v: Option<Vec<PacBuffer>>) -> Option<Seq<BufferView>> {
    match v {
        Some(b) => Some(buffers_view(b@)),
        None => None,
    }
}

pub open spec fn opt_octets(v: Option<Vec<u8>>) -> Option<Seq<u8>> {
    match v {
        Some(b) => Some(b@),
        None => None,
    }
}

impl PacSigning {
    /// The buffers of a reply's PAC with blank signatures, ready to be
    /// signed: the subject's buffers, or a new set where there is none.
    pub fn start(
        subject: Option<Vec<PacBuffer>>,
        logon_override: Option<Vec<u8>>,
        fresh: FreshPac,
        is_service_tkt: bool,
        server: SignatureForm,
        kdc: SignatureForm,
    ) -> (r: PacSigning)
        ensures
            buffers_view(r.buffers@) == pac_contents(
                opt_buffers(subject),
                opt_octets(logon_override),
                fresh,
            ) + blank_signatures(is_service_tkt, server, kdc),
            r.step == (if is_service_tkt {
                SignStep::Ticket
            } else {
                SignStep::Server
            }),
            r.server == server,
            r.kdc == kdc,
    {
        let ghost contents = pac_contents(opt_buffers(subject), opt_octets(logon_override), fresh);
        let mut bs: Vec<PacBuffer> = match subject {
            Some(mut bs) => {
                strip_signatures(&mut bs);
                if let Some(l) = logon_override {
                    let at = find_kind(bs.as_slice(), PAC_LOGON_INFO);
                    let b = PacBuffer { kind: PAC_LOGON_INFO, data: l };
                    let ghost before = bs@;
                    if at < bs.len() {
                        bs.set(at, b);
                        proof {
                            assert(buffers_view(bs@) =~= buffers_view(before).update(
                                at as int,
                                b@,
                            ));
                        }
                    } else {
                        bs.insert(0, b);
                        proof {
                            assert(buffers_view(bs@) =~= seq![b@] + buffers_view(before));
                        }
                    }
                }
                bs
            },
            None => {
                let logon = match logon_override {
                    Some(l) => l,
                    None => fresh.logon,
                };
                let mut bs: Vec<PacBuffer> = Vec::new();
                bs.push(PacBuffer { kind: PAC_LOGON_INFO, data: logon });
                bs.push(PacBuffer { kind: PAC_CLIENT_INFO, data: fresh.client_info });
                bs.push(PacBuffer { kind: PAC_UPN_DNS_INFO, data: fresh.upn_dns });
                bs.push(PacBuffer { kind: PAC_ATTRIBUTES_INFO, data: fresh.attributes });
                bs.push(PacBuffer { kind: PAC_REQUESTER_SID, data: fresh.requester_sid });
                proof {
                    assert(buffers_view(bs@) =~= contents);
                }
                bs
            },
        };
        if is_service_tkt {
            push_buffer(&mut bs, blank(PAC_TICKET_CHECKSUM, kdc));
            push_buffer(&mut bs, blank(PAC_FULL_CHECKSUM, kdc));
        }
        push_buffer(&mut bs, blank(PAC_SERVER_CHECKSUM, server));
        push_buffer(&mut bs, blank(PAC_PRIVSVR_CHECKSUM, kdc));
        proof {
            assert(buffers_view(bs@) =~= contents + blank_signatures(is_service_tkt, server, kdc));
        }
        PacSigning {
            buffers: bs,
            step: if is_service_tkt {
                SignStep::Ticket
            } else {
                SignStep::Server
            },
            server,
            kdc,
        }
    }

    /// Puts the checksum that was due in its place.
    pub fn sign(&mut self, mac: &[u8])
        ensures
            final(self).server == old(self).server,
            final(self).kdc == old(self).kdc,
            final(self).step == old(self).step.next(),
            buffers_view(final(self).buffers@) == (if old(self).step == SignStep::Done {
                buffers_view(old(self).buffers@)
            } else {
                with_signature(
                    buffers_view(old(self).buffers@),
                    old(self).step.kind(),
                    signature_data(
                        if old(self).step == SignStep::Server {
                            old(self).server.cksumtype
                        } else {
                            old(self).kdc.cksumtype
                        },
                        mac@,
                    ),
                )
            }),
    {
        match self.step {
            SignStep::Ticket => {
                set_sig(&mut self.buffers, PAC_TICKET_CHECKSUM, self.kdc.cksumtype, mac);
                self.step = SignStep::Full;
            },
            SignStep::Full => {
                set_sig(&mut self.buffers, PAC_FULL_CHECKSUM, self.kdc.cksumtype, mac);
                self.step = SignStep::Server;
            },
            SignStep::Server => {
                set_sig(&mut self.buffers, PAC_SERVER_CHECKSUM, self.server.cksumtype, mac);
                self.step = SignStep::Privsvr;
            },
            SignStep::Privsvr => {
                set_sig(&mut self.buffers, PAC_PRIVSVR_CHECKSUM, self.kdc.cksumtype, mac);
                self.step = SignStep::Done;
            },
            SignStep::Done => {},
        }
    }
}

/// Signing fills signatures and changes nothing else: the buffers that are
/// no signatures stay as they are, in order.
pub proof fn law_signing_keeps_contents(bs: Seq<BufferView>, kind: u32, data: Seq<u8>)
    requires
        signature_kind(kind),
    ensures
        unsigned(with_signature(bs, kind, data)) == unsigned(bs),
    decreases bs.len(),
{
    reveal(Seq::filter);
    let w = with_signature(bs, kind, data);
    if bs.len() > 0 {
        law_signing_keeps_contents(bs.drop_last(), kind, data);
        assert(w.drop_last() =~= with_signature(bs.drop_last(), kind, data));
    }
}

/// The contents of a PAC made for a reply hold no signature, so that the
/// signatures in it are exactly the blank ones.
pub proof fn law_contents_hold_no_signature(
    subject: Option<Seq<BufferView>>,
    logon_override: Option<Seq<u8>>,
    fresh: FreshPac,
    i: int,
)
    requires
        0 <= i < pac_contents(subject, logon_override, fresh).len(),
    ensures
        !signature_kind(pac_contents(subject, logon_override, fresh)[i].kind),
{
    if let Some(bs) = subject {
        let keep = |b: BufferView| !signature_kind(b.kind);
        assert forall|k: int| 0 <= k < unsigned(bs).len() implies !signature_kind(
            (#[trigger] unsigned(bs)[k]).kind,
        ) by {
            bs.lemma_filter_pred(keep, k);
        }
        if let Some(l) = logon_override {
            let u = unsigned(bs);
            let p = kind_position(u, PAC_LOGON_INFO);
            lemma_kind_position(u, PAC_LOGON_INFO);
            let w = with_logon(u, l);
            if p < u.len() {
                if i != p {
                    assert(w[i] == u[i]);
                }
            } else if i > 0 {
                assert(w[i] == u[i - 1]);
            }
        }
    }
}

/// `kind_position` lies in or right behind the list.
proof fn lemma_kind_position(bs: Seq<BufferView>, kind: u32)
    ensures
        0 <= kind_position(bs, kind) <= bs.len(),
    decreases bs.len(),
{
    if bs.len() > 0 && bs[0].kind != kind {
        lemma_kind_position(bs.drop_first(), kind);
    }
}

/// A PAC is for a client exactly where its client buffer is there and tells that
/// name and that time of authentication.
pub proof fn law_pac_is_for_its_client(
    info: ClientInfo,
    delegation: Option<DelegationInfo>,
    authtime: u32,
    name: Seq<char>,
)
    ensures
        (PacFacts { client_info: Some(info), delegation }).names_client(authtime, name)
            <==> info.authtime == authtime && info.name@ == name,
        !(PacFacts { client_info: None, delegation }).names_client(authtime, name),
{
}

/// A name carries its realm where one or two `@` stand in it: a name without any
/// does not, behind one `@` it does, and behind three it does not.
pub proof fn law_realm_is_carried(a: Seq<char>, b: Seq<char>, c: Seq<char>, d: Seq<char>)
    requires
        !a.contains('@'),
        !b.contains('@'),
        !c.contains('@'),
        !d.contains('@'),
    ensures
        !carries_realm(a),
        carries_realm(a + seq!['@'] + b),
        carries_realm(a + seq!['@'] + b + seq!['@'] + c),
        !carries_realm(a + seq!['@'] + b + seq!['@'] + c + seq!['@'] + d),
{
    let at = seq!['@'];
    assert(at.drop_last() =~= Seq::<char>::empty());
    assert(count(at.drop_last(), '@') == 0);
    assert(count(at, '@') == 1);
    lemma_count_none(a, '@');
    lemma_count_none(b, '@');
    lemma_count_none(c, '@');
    lemma_count_none(d, '@');
    lemma_count_both(a, at, '@');
    lemma_count_both(a + at, b, '@');
    lemma_count_both(a + at + b, at, '@');
    lemma_count_both(a + at + b + at, c, '@');
    lemma_count_both(a + at + b + at + c, at, '@');
    lemma_count_both(a + at + b + at + c + at, d, '@');
}

/// What does not stand in a text is not counted.
proof fn lemma_count_none(s: Seq<char>, c: char)
    requires
        !s.contains(c),
    ensures
        count(s, c) == 0,
    decreases s.len(),
{
    if s.len() > 0 {
        let t = s.drop_last();
        if t.contains(c) {
            let i = choose|i: int| 0 <= i < t.len() && t[i] == c;
            assert(s[i] == c);
        }
        assert(s[s.len() - 1] != c);
        lemma_count_none(t, c);
    }
}

/// Two texts together hold what each holds.
proof fn lemma_count_both(a: Seq<char>, b: Seq<char>, c: char)
    ensures
        count(a + b, c) == count(a, c) + count(b, c),
    decreases b.len(),
{
    if b.len() == 0 {
        assert(a + b =~= a);
    } else {
        lemma_count_both(a, b.drop_last(), c);
        assert((a + b).drop_last() =~= a + b.drop_last());
        assert((a + b).last() == b.last());
    }
}

/// A PAC vouches for a delegation exactly where it names a client with realm and
/// that time, and its delegation buffer tells the target, where one is given, and
/// the delegating service last.
pub proof fn law_pac_vouches_for_the_last_service(
    info: ClientInfo,
    d: DelegationInfo,
    authtime: u32,
    client: Seq<char>,
    target: Seq<char>,
)
    ensures
        ({
            let pac = PacFacts { client_info: Some(info), delegation: Some(d) };
            let services = d.transited_services@;
            let by_client = services.len() > 0 && services[services.len() - 1]@ == client;
            let named = carries_realm(info.name@) && info.authtime == authtime;
            &&& spec_deleg_pac(pac, authtime, client, Some(target)) <==> named && by_client
                && d.proxy_target@ == target
            &&& spec_deleg_pac(pac, authtime, client, None) <==> named && by_client
        }),
        !spec_deleg_pac(
            (PacFacts { client_info: Some(info), delegation: None }),
            authtime,
            client,
            None,
        ),
        !spec_deleg_pac(
            (PacFacts { client_info: None, delegation: Some(d) }),
            authtime,
            client,
            None,
        ),
{
}

/// Taking the signatures out of a PAC takes out the buffers of kinds 6, 7, 16 and
/// 19 and no other, and keeps the order.
pub proof fn law_signatures_are_taken_out(a: Seq<BufferView>, b: Seq<BufferView>, x: BufferView)
    ensures
        unsigned(a).contains(x) <==> a.contains(x) && x.kind != 6 && x.kind != 7 && x.kind != 16
            && x.kind != 19,
        unsigned(a + b) == unsigned(a) + unsigned(b),
{
    let keep = |y: BufferView| !signature_kind(y.kind);
    Seq::filter_distributes_over_add(a, b, keep);
    if a.contains(x) && !signature_kind(x.kind) {
        let i = choose|i: int| 0 <= i < a.len() && a[i] == x;
        a.lemma_filter_contains(keep, i);
    }
    if unsigned(a).contains(x) {
        let i = choose|i: int| 0 <= i < unsigned(a).len() && unsigned(a)[i] == x;
        a.lemma_filter_pred(keep, i);
        a.lemma_filter_contains_rev(keep, x);
    }
}

/// The logon information takes the place of the first such buffer, or stands in
/// front where there is none, and every other buffer stays where it was.
pub proof fn law_logon_is_replaced(
    before: Seq<BufferView>,
    old_logon: BufferView,
    behind: Seq<BufferView>,
    logon: Seq<u8>,
)
    requires
        forall|i: int| 0 <= i < before.len() ==> (#[trigger] before[i]).kind != PAC_LOGON_INFO,
        old_logon.kind == PAC_LOGON_INFO,
    ensures
        with_logon(before + seq![old_logon] + behind, logon) == before + seq![
            BufferView { kind: PAC_LOGON_INFO, data: logon },
        ] + behind,
        with_logon(before, logon) == seq![BufferView { kind: PAC_LOGON_INFO, data: logon }]
            + before,
{
    lemma_kind_between(before, old_logon, behind);
    let b = BufferView { kind: PAC_LOGON_INFO, data: logon };
    let all = before + seq![old_logon] + behind;
    assert(all.update(before.len() as int, b) =~= before + seq![b] + behind);
}

/// The place of the first buffer of a kind.
proof fn lemma_kind_between(before: Seq<BufferView>, b: BufferView, behind: Seq<BufferView>)
    requires
        forall|i: int| 0 <= i < before.len() ==> (#[trigger] before[i]).kind != b.kind,
    ensures
        kind_position(before + seq![b] + behind, b.kind) == before.len(),
        kind_position(before, b.kind) == before.len(),
    decreases before.len(),
{
    let all = before + seq![b] + behind;
    if before.len() == 0 {
        assert(all[0] == b);
    } else {
        let t = before.drop_first();
        assert forall|i: int| 0 <= i < t.len() implies (#[trigger] t[i]).kind != b.kind by {
            assert(t[i] == before[i + 1]);
        }
        lemma_kind_between(t, b, behind);
        assert(all[0] == before[0]);
        assert(all.drop_first() =~= t + seq![b] + behind);
    }
}

/// The PAC of a reply is that of its subject but for the signatures, and with the
/// logon information given in place of its own; a new one holds its five buffers.
pub proof fn law_reply_pac_is_the_subjects(
    bs: Seq<BufferView>,
    logon: Seq<u8>,
    fresh: FreshPac,
    x: BufferView,
)
    ensures
        pac_contents(Some(bs), None, fresh).contains(x) <==> bs.contains(x) && x.kind != 6
            && x.kind != 7 && x.kind != 16 && x.kind != 19,
        pac_contents(Some(bs), Some(logon), fresh) == with_logon(unsigned(bs), logon),
        pac_contents(None, None, fresh).len() == 5,
        pac_contents(None, None, fresh)[0] == (BufferView { kind: 1, data: fresh.logon@ }),
        pac_contents(None, None, fresh)[1] == (BufferView { kind: 10, data: fresh.client_info@ }),
        pac_contents(None, None, fresh)[2] == (BufferView { kind: 12, data: fresh.upn_dns@ }),
        pac_contents(None, None, fresh)[3] == (BufferView { kind: 17, data: fresh.attributes@ }),
        pac_contents(None, None, fresh)[4] == (BufferView {
            kind: 18,
            data: fresh.requester_sid@,
        }),
        pac_contents(None, Some(logon), fresh)[0] == (BufferView { kind: 1, data: logon }),
{
    law_signatures_are_taken_out(bs, Seq::empty(), x);
}

/// A service ticket's PAC has four signatures, of which the server's is in the
/// form of the server's key and the others in that of the KDC's; every other has
/// the last two.
pub proof fn law_signatures_are_in_place(server: SignatureForm, kdc: SignatureForm)
    ensures
        ({
            let a = blank_signatures(true, server, kdc);
            let b = blank_signatures(false, server, kdc);
            &&& a.len() == 4
            &&& b.len() == 2
            &&& a[0].kind == 16 && a[1].kind == 19 && a[2].kind == 6 && a[3].kind == 7
            &&& b[0].kind == 6 && b[1].kind == 7
            &&& a[0].data.len() == 4 + kdc.len && a[1].data.len() == 4 + kdc.len
            &&& a[2].data.len() == 4 + server.len && a[3].data.len() == 4 + kdc.len
            &&& b[0] == a[2] && b[1] == a[3]
            &&& crate::bytes::from_le32(a[2].data, 0) == server.cksumtype as u32
            &&& crate::bytes::from_le32(a[3].data, 0) == kdc.cksumtype as u32
        }),
{
    lemma_signature_type(server.cksumtype, Seq::new(server.len as nat, |i: int| 0u8));
    lemma_signature_type(kdc.cksumtype, Seq::new(kdc.len as nat, |i: int| 0u8));
}

/// The type in front of a signature is read as it was written.
proof fn lemma_signature_type(cksumtype: i32, mac: Seq<u8>)
    ensures
        crate::bytes::from_le32(signature_data(cksumtype, mac), 0) == cksumtype as u32,
        signature_data(cksumtype, mac).len() == 4 + mac.len(),
{
    let v = cksumtype as u32;
    crate::bytes::lemma_le32_round_trip(v);
    let w = le32(v);
    let d = signature_data(cksumtype, mac);
    assert(d[0] == w[0] && d[1] == w[1] && d[2] == w[2] && d[3] == w[3]);
}

/// Signing goes from the ticket over the whole PAC and the server's signature to
/// the KDC's, each step filling the signature of its kind.
pub proof fn law_signatures_are_made_in_order()
    ensures
        SignStep::Ticket.next() == SignStep::Full,
        SignStep::Full.next() == SignStep::Server,
        SignStep::Server.next() == SignStep::Privsvr,
        SignStep::Privsvr.next() == SignStep::Done,
        SignStep::Ticket.kind() == 16,
        SignStep::Full.kind() == 19,
        SignStep::Server.kind() == 6,
        SignStep::Privsvr.kind() == 7,
{
}

/// A signature is filled where its kind stands, and nothing else changes.
pub proof fn law_signature_is_filled(bs: Seq<BufferView>, kind: u32, data: Seq<u8>, i: int)
    requires
        0 <= i < bs.len(),
    ensures
        with_signature(bs, kind, data).len() == bs.len(),
        bs[i].kind == kind ==> with_signature(bs, kind, data)[i] == (BufferView { kind, data }),
        bs[i].kind != kind ==> with_signature(bs, kind, data)[i] == bs[i],
{
}

} // verus!
