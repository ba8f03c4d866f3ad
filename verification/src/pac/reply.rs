//! Signing the PAC of a reply from beginning to end.

use crate::ad::verify::KU_PAC_SIGNATURE;
use crate::bytes::{copy, copy_range};
use crate::error::{proto, refusal, Error, Status, GENERIC};
use crate::msg::EncryptionKey;
use crate::pac::{
    blank_signatures, buffers_view, find_kind, kind_position, opt_buffers, opt_octets,
    pac_contents, signature_data, with_signature, BufferView, FreshPac, PacBuffer, PacSigning,
    SignStep, SignatureForm, PAC_FULL_CHECKSUM, PAC_PRIVSVR_CHECKSUM, PAC_SERVER_CHECKSUM,
    PAC_TICKET_CHECKSUM,
};
use vstd::prelude::*;

verus! {

/// What a checksum is made over.
#[derive(Clone, Debug, PartialEq, Eq)]
pub enum SignInput {
    /// These octets.
    Octets(Vec<u8>),
    /// The encoding of a PAC with these buffers.
    Pac(Vec<PacBuffer>),
}

/// What a checksum is made over.
pub enum InputView {
    /// These octets.
    Octets(Seq<u8>),
    /// The encoding of a PAC with these buffers.
    Pac(Seq<BufferView>),
}

impl View for SignInput {
    type V = InputView;

    open spec fn view(&self) -> InputView {
        match self {
            SignInput::Octets(v) => InputView::Octets(v@),
            SignInput::Pac(v) => InputView::Pac(buffers_view(v@)),
        }
    }
}

/// What the checksum that is due is made over: the encoded ticket, the PAC as
/// it stands, or the checksum in the server signature. There is nothing where
/// the server signature is missing or cut short.
pub open spec fn due_input(step: SignStep, bs: Seq<BufferView>, ticket: Seq<u8>) -> Option<
    InputView,
> {
    match step {
        SignStep::Ticket => Some(InputView::Octets(ticket)),
        SignStep::Full | SignStep::Server => Some(InputView::Pac(bs)),
        _ => {
            let i = kind_position(bs, PAC_SERVER_CHECKSUM);
            if i < bs.len() && bs[i].data.len() >= 4 {
                Some(InputView::Octets(bs[i].data.skip(4)))
            } else {
                None
            }
        },
    }
}

/// A copy of a list of buffers.
pub(crate) fn copy_buffers(bs: &[PacBuffer]) -> (r: Vec<PacBuffer>)
    ensures
        buffers_view(r@) == buffers_view(bs@),
{
    let mut out: Vec<PacBuffer> = Vec::new();
    let n: usize = bs.len();
    let mut i: usize = 0;
    while i < n
        invariant
            i <= n,
            n == bs@.len(),
            out@.len() == i,
            forall|k: int| 0 <= k < i ==> #[trigger] out@[k]@ == bs@[k]@,
        decreases n - i,
    {
        out.push(PacBuffer { kind: bs[i].kind, data: copy(bs[i].data.as_slice()) });
        i = i + 1;
    }
    proof {
        assert(buffers_view(out@) =~= buffers_view(bs@));
    }
    out
}

impl PacSigning {
    /// What the checksum that is due is made over.
    pub fn due(&self, ticket: &[u8]) -> (r: Result<SignInput, Error>)
        ensures
            match due_input(self.step, buffers_view(self.buffers@), ticket@) {
                Some(v) => r matches Ok(x) && x@ == v,
                None => r == Err::<SignInput, Error>(refusal(GENERIC, Status::HeaderPac)),
            },
    {
        match self.step {
            SignStep::Ticket => Ok(SignInput::Octets(copy(ticket))),
            SignStep::Full | SignStep::Server => Ok(
                SignInput::Pac(copy_buffers(self.buffers.as_slice())),
            ),
            _ => {
                let i = find_kind(self.buffers.as_slice(), PAC_SERVER_CHECKSUM);
                if i < self.buffers.len() && self.buffers[i].data.len() >= 4 {
                    let d = &self.buffers[i].data;
                    let v = copy_range(d.as_slice(), 4, d.len());
                    proof {
                        assert(v@ =~= d@.skip(4));
                    }
                    Ok(SignInput::Octets(v))
                } else {
                    Err(proto(GENERIC, Status::HeaderPac))
                }
            },
        }
    }
}

/// The checksums of a PAC, in the order in which they are made.
pub struct Macs {
    /// Over the ticket; of a service ticket only.
    pub ticket: Seq<u8>,
    /// Over the whole PAC; of a service ticket only.
    pub full: Seq<u8>,
    /// Over the PAC, with the server key.
    pub server: Seq<u8>,
    /// Over the server signature.
    pub privsvr: Seq<u8>,
}

/// The PAC before it is signed.
pub open spec fn unsigned_reply(
    contents: Seq<BufferView>,
    is_service_tkt: bool,
    server: SignatureForm,
    kdc: SignatureForm,
) -> Seq<BufferView> {
    contents + blank_signatures(is_service_tkt, server, kdc)
}

/// The PAC with the ticket signature of a service ticket.
pub open spec fn ticket_signed(
    b: Seq<BufferView>,
    is_service_tkt: bool,
    kdc: SignatureForm,
    m: Macs,
) -> Seq<BufferView> {
    if is_service_tkt {
        with_signature(b, PAC_TICKET_CHECKSUM, signature_data(kdc.cksumtype, m.ticket))
    } else {
        b
    }
}

/// The PAC with the ticket signature and the full signature of a service
/// ticket.
pub open spec fn full_signed(
    b: Seq<BufferView>,
    is_service_tkt: bool,
    kdc: SignatureForm,
    m: Macs,
) -> Seq<BufferView> {
    if is_service_tkt {
        with_signature(
            ticket_signed(b, is_service_tkt, kdc, m),
            PAC_FULL_CHECKSUM,
            signature_data(kdc.cksumtype, m.full),
        )
    } else {
        b
    }
}

/// The PAC with all but the signature over the server signature.
pub open spec fn server_signed(
    b: Seq<BufferView>,
    is_service_tkt: bool,
    server: SignatureForm,
    kdc: SignatureForm,
    m: Macs,
) -> Seq<BufferView> {
    with_signature(
        full_signed(b, is_service_tkt, kdc, m),
        PAC_SERVER_CHECKSUM,
        signature_data(server.cksumtype, m.server),
    )
}

/// The PAC with all signatures.
pub open spec fn all_signed(
    b: Seq<BufferView>,
    is_service_tkt: bool,
    server: SignatureForm,
    kdc: SignatureForm,
    m: Macs,
) -> Seq<BufferView> {
    with_signature(
        server_signed(b, is_service_tkt, server, kdc, m),
        PAC_PRIVSVR_CHECKSUM,
        signature_data(kdc.cksumtype, m.privsvr),
    )
}

/// The key of a step: the server's for its signature, the KDC's for the others.
pub open spec fn step_key(
    step: SignStep,
    server: EncryptionKey,
    kdc: EncryptionKey,
) -> EncryptionKey {
    if step == SignStep::Server {
        server
    } else {
        kdc
    }
}

/// `checksum` made `mac` over `input` under this key.
pub open spec fn made<C: Fn(&EncryptionKey, u32, &SignInput) -> Result<Vec<u8>, Error>>(
    checksum: C,
    key: EncryptionKey,
    input: InputView,
    mac: Seq<u8>,
) -> bool {
    exists|x: SignInput, v: Vec<u8>|
        x@ == input && v@ == mac && #[trigger] call_ensures(
            checksum,
            (&key, KU_PAC_SIGNATURE, &x),
            Ok::<Vec<u8>, Error>(v),
        )
}

/// `checksum` failed with this error over `input` under this key.
pub open spec fn failed<C: Fn(&EncryptionKey, u32, &SignInput) -> Result<Vec<u8>, Error>>(
    checksum: C,
    key: EncryptionKey,
    input: InputView,
    e: Error,
) -> bool {
    exists|x: SignInput|
        x@ == input && #[trigger] call_ensures(
            checksum,
            (&key, KU_PAC_SIGNATURE, &x),
            Err::<Vec<u8>, Error>(e),
        )
}

/// The signing stops with this error in a step that is due: the checksums before
/// it were made, and the one over what is due in it was not.
pub open spec fn stops_at<C: Fn(&EncryptionKey, u32, &SignInput) -> Result<Vec<u8>, Error>>(
    checksum: C,
    b: Seq<BufferView>,
    is_service_tkt: bool,
    server_key: EncryptionKey,
    kdc_key: EncryptionKey,
    kdc: SignatureForm,
    ticket: Seq<u8>,
    m: Macs,
    step: SignStep,
    e: Error,
) -> bool {
    let first = InputView::Octets(ticket);
    let second = InputView::Pac(ticket_signed(b, is_service_tkt, kdc, m));
    let third = InputView::Pac(full_signed(b, is_service_tkt, kdc, m));
    let by_ticket = made(checksum, kdc_key, first, m.ticket);
    let by_full = made(checksum, kdc_key, second, m.full);
    match step {
        SignStep::Ticket => is_service_tkt && failed(checksum, kdc_key, first, e),
        SignStep::Full => is_service_tkt && by_ticket && failed(checksum, kdc_key, second, e),
        SignStep::Server => (is_service_tkt ==> by_ticket && by_full) && failed(
            checksum,
            server_key,
            third,
            e,
        ),
        SignStep::Privsvr => (is_service_tkt ==> by_ticket && by_full) && made(
            checksum,
            server_key,
            third,
            m.server,
        ) && failed(checksum, kdc_key, InputView::Octets(m.server), e),
        SignStep::Done => false,
    }
}

/// Each checksum is made over what is due in its step, that of the server under its
/// key and the others under the KDC's.
pub open spec fn signed_with<C: Fn(&EncryptionKey, u32, &SignInput) -> Result<Vec<u8>, Error>>(
    checksum: C,
    b: Seq<BufferView>,
    is_service_tkt: bool,
    server_key: EncryptionKey,
    kdc_key: EncryptionKey,
    kdc: SignatureForm,
    ticket: Seq<u8>,
    m: Macs,
) -> bool {
    &&& is_service_tkt ==> made(
        checksum,
        kdc_key,
        InputView::Octets(ticket),
        m.ticket,
    )
    &&& is_service_tkt ==> made(
        checksum,
        kdc_key,
        InputView::Pac(ticket_signed(b, is_service_tkt, kdc, m)),
        m.full,
    )
    &&& made(
        checksum,
        server_key,
        InputView::Pac(full_signed(b, is_service_tkt, kdc, m)),
        m.server,
    )
    &&& made(checksum, kdc_key, InputView::Octets(m.server), m.privsvr)
}

/// A list that holds a buffer of `kind` has its first in it, and no earlier
/// buffer is of that kind.
proof fn lemma_kind_found(bs: Seq<BufferView>, kind: u32, i: int)
    requires
        0 <= i < bs.len(),
        bs[i].kind == kind,
    ensures
        0 <= kind_position(bs, kind) <= i,
        bs[kind_position(bs, kind)].kind == kind,
    decreases bs.len(),
{
    if bs[0].kind != kind {
        lemma_kind_found(bs.drop_first(), kind, i - 1);
    }
}

/// The server signature that was just set is the one that is found.
proof fn lemma_server_found(bs: Seq<BufferView>, data: Seq<u8>, i: int)
    requires
        0 <= i < bs.len(),
        bs[i].kind == PAC_SERVER_CHECKSUM,
    ensures
        ({
            let w = with_signature(bs, PAC_SERVER_CHECKSUM, data);
            let p = kind_position(w, PAC_SERVER_CHECKSUM);
            0 <= p < w.len() && w[p].data == data
        }),
{
    let w = with_signature(bs, PAC_SERVER_CHECKSUM, data);
    assert(w[i].kind == PAC_SERVER_CHECKSUM);
    lemma_kind_found(w, PAC_SERVER_CHECKSUM, i);
    let p = kind_position(w, PAC_SERVER_CHECKSUM);
    assert(bs[p].kind == PAC_SERVER_CHECKSUM);
}

/// One step: the checksum that is due is made and put in its place.
fn sign_step<C: Fn(&EncryptionKey, u32, &SignInput) -> Result<Vec<u8>, Error>>(
    s: &mut PacSigning,
    server_key: &EncryptionKey,
    kdc_key: &EncryptionKey,
    ticket: &[u8],
    checksum: &C,
) -> (r: Result<Ghost<Seq<u8>>, Error>)
    requires
        old(s).step != SignStep::Done,
        forall|k: EncryptionKey, u: u32, x: SignInput| #[trigger]
            call_requires(*checksum, (&k, u, &x)),
        due_input(old(s).step, buffers_view(old(s).buffers@), ticket@) is Some,
    ensures
        match r {
            Ok(mac) => {
                &&& made(
                    *checksum,
                    step_key(old(s).step, *server_key, *kdc_key),
                    due_input(old(s).step, buffers_view(old(s).buffers@), ticket@)->0,
                    mac@,
                )
                &&& buffers_view(final(s).buffers@) == with_signature(
                    buffers_view(old(s).buffers@),
                    old(s).step.kind(),
                    signature_data(
                        if old(s).step == SignStep::Server {
                            old(s).server.cksumtype
                        } else {
                            old(s).kdc.cksumtype
                        },
                        mac@,
                    ),
                )
                &&& final(s).step == old(s).step.next()
            },
            Err(e) => failed(
                *checksum,
                step_key(old(s).step, *server_key, *kdc_key),
                due_input(old(s).step, buffers_view(old(s).buffers@), ticket@)->0,
                e,
            ),
        },
        final(s).server == old(s).server,
        final(s).kdc == old(s).kdc,
{
    let input = match s.due(ticket) {
        Err(e) => {
            return Err(e);
        },
        Ok(x) => x,
    };
    let key: &EncryptionKey = match s.step {
        SignStep::Server => server_key,
        _ => kdc_key,
    };
    match checksum(key, KU_PAC_SIGNATURE, &input) {
        Err(e) => Err(e),
        Ok(mac) => {
            s.sign(mac.as_slice());
            Ok(Ghost(mac@))
        },
    }
}

/// What signing a PAC with these contents comes to in signatures of these forms: each
/// checksum is made over what is due in its step, and the first that fails ends it.
pub open spec fn signed_in_form<C: Fn(&EncryptionKey, u32, &SignInput) -> Result<Vec<u8>, Error>>(
    contents: Seq<BufferView>,
    is_service_tkt: bool,
    server_key: EncryptionKey,
    kdc_key: EncryptionKey,
    server: SignatureForm,
    kdc: SignatureForm,
    ticket: Seq<u8>,
    checksum: C,
    r: Result<Vec<PacBuffer>, Error>,
) -> bool {
    let b = unsigned_reply(contents, is_service_tkt, server, kdc);
    match r {
        Ok(v) => exists|m: Macs| #[trigger]
            signed_with(checksum, b, is_service_tkt, server_key, kdc_key, kdc, ticket, m)
                && buffers_view(v@) == all_signed(b, is_service_tkt, server, kdc, m),
        Err(e) => exists|m: Macs, step: SignStep| #[trigger]
            stops_at(
                checksum,
                b,
                is_service_tkt,
                server_key,
                kdc_key,
                kdc,
                ticket,
                m,
                step,
                e,
            ),
    }
}

/// What signing a PAC with these contents comes to: the signatures have the forms
/// that `form` gives for the types of the keys.
pub open spec fn reply_signed<
    G: Fn(i32) -> SignatureForm,
    C: Fn(&EncryptionKey, u32, &SignInput) -> Result<Vec<u8>, Error>,
>(
    contents: Seq<BufferView>,
    is_service_tkt: bool,
    server_key: EncryptionKey,
    kdc_key: EncryptionKey,
    ticket: Seq<u8>,
    form: G,
    checksum: C,
    r: Result<Vec<PacBuffer>, Error>,
) -> bool {
    exists|server: SignatureForm, kdc: SignatureForm|
        {
            &&& #[trigger] call_ensures(form, (server_key.keytype,), server)
            &&& #[trigger] call_ensures(form, (kdc_key.keytype,), kdc)
            &&& signed_in_form(
                contents,
                is_service_tkt,
                server_key,
                kdc_key,
                server,
                kdc,
                ticket,
                checksum,
                r,
            )
        }
}

/// The PAC of a reply, signed: the ticket signature and the full signature of
/// a service ticket, then the server signature, then the signature over it. The
/// server signature is under the server's key, the others are under the KDC's.
/// `form` gives the form of the signatures of a key type, and `checksum` makes each
/// checksum under a key and a usage.
pub fn sign_reply_pac<
    G: Fn(i32) -> SignatureForm,
    C: Fn(&EncryptionKey, u32, &SignInput) -> Result<Vec<u8>, Error>,
>(
    subject: Option<Vec<PacBuffer>>,
    logon_override: Option<Vec<u8>>,
    fresh: FreshPac,
    is_service_tkt: bool,
    server_key: &EncryptionKey,
    kdc_key: &EncryptionKey,
    enc_tkt_der: &[u8],
    form: &G,
    checksum: &C,
) -> (r: Result<Vec<PacBuffer>, Error>)
    requires
        forall|e: i32| #[trigger] call_requires(*form, (e,)),
        forall|k: EncryptionKey, u: u32, x: SignInput| #[trigger]
            call_requires(*checksum, (&k, u, &x)),
    ensures
        reply_signed(
            pac_contents(opt_buffers(subject), opt_octets(logon_override), fresh),
            is_service_tkt,
            *server_key,
            *kdc_key,
            enc_tkt_der@,
            *form,
            *checksum,
            r,
        ),
{
    let ghost contents = pac_contents(opt_buffers(subject), opt_octets(logon_override), fresh);
    let server = form(server_key.keytype);
    let kdc = form(kdc_key.keytype);
    assert(call_ensures(*form, (server_key.keytype,), server));
    assert(call_ensures(*form, (kdc_key.keytype,), kdc));
    let r = sign_in_form(
        subject,
        logon_override,
        fresh,
        is_service_tkt,
        server_key,
        kdc_key,
        server,
        kdc,
        enc_tkt_der,
        checksum,
    );
    assert(signed_in_form(
        contents,
        is_service_tkt,
        *server_key,
        *kdc_key,
        server,
        kdc,
        enc_tkt_der@,
        *checksum,
        r,
    ));
    r
}

/// Signs the PAC of a reply in signatures of these forms.
fn sign_in_form<C: Fn(&EncryptionKey, u32, &SignInput) -> Result<Vec<u8>, Error>>(
    subject: Option<Vec<PacBuffer>>,
    logon_override: Option<Vec<u8>>,
    fresh: FreshPac,
    is_service_tkt: bool,
    server_key: &EncryptionKey,
    kdc_key: &EncryptionKey,
    server: SignatureForm,
    kdc: SignatureForm,
    enc_tkt_der: &[u8],
    checksum: &C,
) -> (r: Result<Vec<PacBuffer>, Error>)
    requires
        forall|k: EncryptionKey, u: u32, x: SignInput| #[trigger]
            call_requires(*checksum, (&k, u, &x)),
    ensures
        signed_in_form(
            pac_contents(opt_buffers(subject), opt_octets(logon_override), fresh),
            is_service_tkt,
            *server_key,
            *kdc_key,
            server,
            kdc,
            enc_tkt_der@,
            *checksum,
            r,
        ),
{
    let ghost contents = pac_contents(opt_buffers(subject), opt_octets(logon_override), fresh);
    let ghost b = unsigned_reply(contents, is_service_tkt, server, kdc);
    let mut s = PacSigning::start(subject, logon_override, fresh, is_service_tkt, server, kdc);
    let ghost mut m = Macs {
        ticket: Seq::empty(),
        full: Seq::empty(),
        server: Seq::empty(),
        privsvr: Seq::empty(),
    };
    if is_service_tkt {
        match sign_step(&mut s, server_key, kdc_key, enc_tkt_der, checksum) {
            Err(e) => {
                proof {
                    assert(stops_at(
                        *checksum,
                        b,
                        is_service_tkt,
                        *server_key,
                        *kdc_key,
                        kdc,
                        enc_tkt_der@,
                        m,
                        SignStep::Ticket,
                        e,
                    ));
                }
                return Err(e);
            },
            Ok(mac) => {
                proof {
                    m = Macs { ticket: mac@, ..m };
                }
            },
        }
        match sign_step(&mut s, server_key, kdc_key, enc_tkt_der, checksum) {
            Err(e) => {
                proof {
                    assert(stops_at(
                        *checksum,
                        b,
                        is_service_tkt,
                        *server_key,
                        *kdc_key,
                        kdc,
                        enc_tkt_der@,
                        m,
                        SignStep::Full,
                        e,
                    ));
                }
                return Err(e);
            },
            Ok(mac) => {
                proof {
                    m = Macs { full: mac@, ..m };
                }
            },
        }
    }
    proof {
        assert(buffers_view(s.buffers@) == full_signed(b, is_service_tkt, kdc, m));
    }
    match sign_step(&mut s, server_key, kdc_key, enc_tkt_der, checksum) {
        Err(e) => {
            proof {
                assert(stops_at(
                    *checksum,
                    b,
                    is_service_tkt,
                    *server_key,
                    *kdc_key,
                    kdc,
                    enc_tkt_der@,
                    m,
                    SignStep::Server,
                    e,
                ));
            }
            return Err(e);
        },
        Ok(mac) => {
            proof {
                m = Macs { server: mac@, ..m };
                let data = signature_data(server.cksumtype, mac@);
                let at = b.len() - 2;
                assert(b[at].kind == PAC_SERVER_CHECKSUM);
                let f = full_signed(b, is_service_tkt, kdc, m);
                assert(f.len() == b.len() && f[at].kind == PAC_SERVER_CHECKSUM);
                lemma_server_found(f, data, at);
                assert(data.skip(4) =~= mac@);
            }
        },
    }
    match sign_step(&mut s, server_key, kdc_key, enc_tkt_der, checksum) {
        Err(e) => {
            proof {
                assert(stops_at(
                    *checksum,
                    b,
                    is_service_tkt,
                    *server_key,
                    *kdc_key,
                    kdc,
                    enc_tkt_der@,
                    m,
                    SignStep::Privsvr,
                    e,
                ));
            }
            return Err(e);
        },
        Ok(mac) => {
            proof {
                m = Macs { privsvr: mac@, ..m };
            }
        },
    }
    proof {
        assert(signed_with(
            *checksum,
            b,
            is_service_tkt,
            *server_key,
            *kdc_key,
            kdc,
            enc_tkt_der@,
            m,
        ));
    }
    Ok(s.buffers)
}

/// The server's signature is made under the server's key over the PAC, and every
/// other under the KDC's; that of the ticket is over the ticket.
pub proof fn law_each_step_has_its_key(
    step: SignStep,
    server: EncryptionKey,
    kdc: EncryptionKey,
    bs: Seq<BufferView>,
    ticket: Seq<u8>,
)
    ensures
        step_key(SignStep::Server, server, kdc) == server,
        step != SignStep::Server ==> step_key(step, server, kdc) == kdc,
        due_input(SignStep::Ticket, bs, ticket) == Some(InputView::Octets(ticket)),
        due_input(SignStep::Full, bs, ticket) == Some(InputView::Pac(bs)),
        due_input(SignStep::Server, bs, ticket) == Some(InputView::Pac(bs)),
        !(due_input(SignStep::Privsvr, bs, ticket) matches Some(InputView::Pac(_))),
{
}

} // verus!
