//! A PAC that was signed is verified.

use crate::ad::verify::{
    blanked, blanked_result, full_blanks, kind_result, pac_checksums_result, pac_result,
    privsvr_result, server_blanks, ticket_result, PacFault, KU_PAC_SIGNATURE,
};
use crate::ad::{cksum_form, law_signature_round_trip, CksumOutcome, CksumType, CKSUMTYPE_SHA1};
use crate::error::Error;
use crate::msg::EncryptionKey;
use crate::pac::reply::{
    all_signed, full_signed, made, reply_signed, signed_in_form, signed_with, ticket_signed,
    unsigned_reply, InputView, Macs, SignInput,
};
use crate::pac::{
    buffers_view, kind_position, opt_octets, pac_contents, signature_data, signature_kind,
    unsigned, with_logon, BufferView, FreshPac, PacBuffer, SignatureForm, PAC_FULL_CHECKSUM,
    PAC_LOGON_INFO, PAC_PRIVSVR_CHECKSUM, PAC_SERVER_CHECKSUM, PAC_TICKET_CHECKSUM,
};
use vstd::prelude::*;

verus! {

/// A signature with its checksum blank: the type stays, the octets behind it are zero.
pub open spec fn blank_data(d: Seq<u8>) -> Seq<u8> {
    if d.len() < 4 {
        d
    } else {
        d.take(4) + Seq::new((d.len() - 4) as nat, |i: int| 0u8)
    }
}

/// Buffers with the signatures of some kinds blank.
pub open spec fn with_blanks(bs: Seq<BufferView>, kinds: Seq<u32>) -> Seq<BufferView> {
    bs.map_values(
        |b: BufferView|
            if kinds.contains(b.kind) {
                BufferView { kind: b.kind, data: blank_data(b.data) }
            } else {
                b
            },
    )
}

/// The octets that a checksum is made over; `encoding` is that of a PAC.
pub open spec fn input_octets(
    x: InputView,
    encoding: spec_fn(Seq<BufferView>) -> Seq<u8>,
) -> Seq<u8> {
    match x {
        InputView::Octets(o) => o,
        InputView::Pac(bs) => encoding(bs),
    }
}

/// `buffer` gives the first buffer of a kind in a PAC with these buffers.
pub open spec fn reads_buffers<B: Fn(&Vec<u8>, u32) -> Result<Option<Vec<u8>>, PacFault>>(
    buffer: B,
    pac: Vec<u8>,
    bs: Seq<BufferView>,
) -> bool {
    forall|k: u32, r: Result<Option<Vec<u8>>, PacFault>| #[trigger]
        call_ensures(buffer, (&pac, k), r) ==> (r matches Ok(o) && opt_octets(o) == (if kind_position(
            bs,
            k,
        ) < bs.len() {
            Some(bs[kind_position(bs, k)].data)
        } else {
            None
        }))
}

/// `zeroed` gives the encoding of a PAC with the signatures of some kinds blank.
pub open spec fn blanks_buffers<Z: Fn(&Vec<u8>, &Vec<u32>) -> Result<Vec<u8>, PacFault>>(
    zeroed: Z,
    pac: Vec<u8>,
    bs: Seq<BufferView>,
    encoding: spec_fn(Seq<BufferView>) -> Seq<u8>,
) -> bool {
    forall|x: Vec<u32>, r: Result<Vec<u8>, PacFault>| #[trigger]
        call_ensures(zeroed, (&pac, &x), r) ==> (r matches Ok(o) && o@ == encoding(with_blanks(bs, x@)))
}

/// Checksums of this form that `checksum` makes under a key are as long as the form
/// says, and `check` finds them right over the same octets.
pub open spec fn checks_what_is_made<
    C: Fn(&EncryptionKey, u32, &SignInput) -> Result<Vec<u8>, Error>,
    K: Fn(&EncryptionKey, u32, &Vec<u8>, i32, &Vec<u8>) -> CksumOutcome,
>(
    checksum: C,
    check: K,
    encoding: spec_fn(Seq<BufferView>) -> Seq<u8>,
    key: EncryptionKey,
    form: SignatureForm,
) -> bool {
    &&& forall|x: SignInput, m: Vec<u8>| #[trigger]
        call_ensures(checksum, (&key, KU_PAC_SIGNATURE, &x), Ok::<Vec<u8>, Error>(m)) ==> m@.len()
            == form.len
    &&& forall|x: SignInput, m: Vec<u8>, d: Vec<u8>, n: Vec<u8>, o: CksumOutcome|
        #[trigger] call_ensures(
            checksum,
            (&key, KU_PAC_SIGNATURE, &x),
            Ok::<Vec<u8>, Error>(m),
        ) && #[trigger] call_ensures(
            check,
            (&key, KU_PAC_SIGNATURE, &d, form.cksumtype, &n),
            o,
        ) && d@ == input_octets(x@, encoding) && n@ == m@ ==> o == CksumOutcome::Good
}

/// The form is that of a keyed checksum that is known.
pub open spec fn form_is_known(types: Seq<CksumType>, form: SignatureForm) -> bool {
    cksum_form(types, form.cksumtype) matches Some(f) && f.keyed && f.size == form.len
}

/// No buffer is a signature.
pub open spec fn holds_no_signature(bs: Seq<BufferView>) -> bool {
    forall|i: int| 0 <= i < bs.len() ==> !signature_kind(#[trigger] bs[i].kind)
}

proof fn lemma_kind_at(bs: Seq<BufferView>, kind: u32, i: int)
    requires
        0 <= i < bs.len(),
        bs[i].kind == kind,
        forall|j: int| 0 <= j < i ==> (#[trigger] bs[j]).kind != kind,
    ensures
        kind_position(bs, kind) == i,
    decreases bs.len(),
{
    if i > 0 {
        assert(bs[0].kind != kind);
        let t = bs.drop_first();
        assert forall|j: int| 0 <= j < i - 1 implies (#[trigger] t[j]).kind != kind by {
            assert(t[j] == bs[j + 1]);
        }
        lemma_kind_at(t, kind, i - 1);
    }
}

proof fn lemma_position_bound(bs: Seq<BufferView>, kind: u32)
    ensures
        0 <= kind_position(bs, kind) <= bs.len(),
    decreases bs.len(),
{
    if bs.len() > 0 {
        lemma_position_bound(bs.drop_first(), kind);
    }
}

proof fn lemma_contents(subject: Option<Seq<BufferView>>, logon: Option<Seq<u8>>, fresh: FreshPac)
    ensures
        holds_no_signature(pac_contents(subject, logon, fresh)),
{
    match subject {
        Some(bs) => {
            let u = unsigned(bs);
            assert forall|i: int| 0 <= i < u.len() implies !signature_kind(
                #[trigger] u[i].kind,
            ) by {
                bs.lemma_filter_pred(|b: BufferView| !signature_kind(b.kind), i);
            }
            match logon {
                Some(l) => {
                    lemma_position_bound(u, PAC_LOGON_INFO);
                    let w = with_logon(u, l);
                    let p = kind_position(u, PAC_LOGON_INFO);
                    let first = BufferView { kind: PAC_LOGON_INFO, data: l };
                    assert forall|i: int| 0 <= i < w.len() implies !signature_kind(
                        #[trigger] w[i].kind,
                    ) by {
                        if p < u.len() {
                            if i != p {
                                assert(w[i] == u[i]);
                            }
                        } else if i == 0 {
                            assert(w[i] == first);
                        } else {
                            assert(w[i] == u[i - 1]);
                        }
                    }
                },
                None => {},
            }
        },
        None => {},
    }
}

/// A blank signature is one whose checksum was made blank again.
proof fn lemma_blank(cksumtype: i32, mac: Seq<u8>)
    ensures
        blank_data(signature_data(cksumtype, mac)) == signature_data(
            cksumtype,
            Seq::new(mac.len(), |i: int| 0u8),
        ),
{
    assert(blank_data(signature_data(cksumtype, mac)) =~= signature_data(
        cksumtype,
        Seq::new(mac.len(), |i: int| 0u8),
    ));
}

/// Where the signatures of a signed PAC stand, and what they hold.
proof fn lemma_signed_places(
    contents: Seq<BufferView>,
    is_service_tkt: bool,
    server: SignatureForm,
    kdc: SignatureForm,
    m: Macs,
)
    requires
        holds_no_signature(contents),
    ensures
        ({
            let s = all_signed(
                unsigned_reply(contents, is_service_tkt, server, kdc),
                is_service_tkt,
                server,
                kdc,
                m,
            );
            let n = contents.len() as int + (if is_service_tkt {
                2int
            } else {
                0
            });
            &&& s.len() == n + 2
            &&& kind_position(s, PAC_SERVER_CHECKSUM) == n
            &&& s[n].data == signature_data(server.cksumtype, m.server)
            &&& kind_position(s, PAC_PRIVSVR_CHECKSUM) == n + 1
            &&& s[n + 1].data == signature_data(kdc.cksumtype, m.privsvr)
            &&& is_service_tkt ==> kind_position(s, PAC_TICKET_CHECKSUM) == n - 2 && s[n - 2].data
                == signature_data(kdc.cksumtype, m.ticket)
            &&& is_service_tkt ==> kind_position(s, PAC_FULL_CHECKSUM) == n - 1 && s[n - 1].data
                == signature_data(kdc.cksumtype, m.full)
        }),
{
    let b = unsigned_reply(contents, is_service_tkt, server, kdc);
    let s = all_signed(b, is_service_tkt, server, kdc, m);
    let n = contents.len() as int + (if is_service_tkt {
        2int
    } else {
        0
    });
    assert forall|j: int| 0 <= j < contents.len() implies !signature_kind(
        (#[trigger] s[j]).kind,
    ) by {
        assert(b[j] == contents[j]);
        assert(!signature_kind(contents[j].kind));
    }
    lemma_kind_at(s, PAC_SERVER_CHECKSUM, n);
    lemma_kind_at(s, PAC_PRIVSVR_CHECKSUM, n + 1);
    if is_service_tkt {
        lemma_kind_at(s, PAC_TICKET_CHECKSUM, n - 2);
        lemma_kind_at(s, PAC_FULL_CHECKSUM, n - 1);
    }
}

/// With the right signatures blank, a signed PAC is what its checksums were made over.
proof fn lemma_signed_blanks(
    contents: Seq<BufferView>,
    is_service_tkt: bool,
    server: SignatureForm,
    kdc: SignatureForm,
    m: Macs,
)
    requires
        holds_no_signature(contents),
        m.server.len() == server.len,
        m.privsvr.len() == kdc.len,
        is_service_tkt ==> m.full.len() == kdc.len,
    ensures
        ({
            let b = unsigned_reply(contents, is_service_tkt, server, kdc);
            let s = all_signed(b, is_service_tkt, server, kdc, m);
            &&& with_blanks(s, server_blanks()) == full_signed(b, is_service_tkt, kdc, m)
            &&& is_service_tkt ==> with_blanks(s, full_blanks()) == ticket_signed(
                b,
                is_service_tkt,
                kdc,
                m,
            )
        }),
{
    let b = unsigned_reply(contents, is_service_tkt, server, kdc);
    let s = all_signed(b, is_service_tkt, server, kdc, m);
    let f = full_signed(b, is_service_tkt, kdc, m);
    lemma_blank(server.cksumtype, m.server);
    lemma_blank(kdc.cksumtype, m.privsvr);
    lemma_blank(kdc.cksumtype, m.full);
    let one = with_blanks(s, server_blanks());
    assert(server_blanks()[0] == PAC_SERVER_CHECKSUM);
    assert(server_blanks()[1] == PAC_PRIVSVR_CHECKSUM);
    assert(full_blanks()[0] == PAC_SERVER_CHECKSUM);
    assert(full_blanks()[1] == PAC_PRIVSVR_CHECKSUM);
    assert(full_blanks()[2] == PAC_FULL_CHECKSUM);
    assert forall|i: int| 0 <= i < b.len() implies #[trigger] one[i] == f[i] by {
        if i < contents.len() {
            assert(b[i] == contents[i]);
            assert(!signature_kind(contents[i].kind));
        }
    }
    assert(one =~= f);
    if is_service_tkt {
        let two = with_blanks(s, full_blanks());
        let t = ticket_signed(b, is_service_tkt, kdc, m);
        assert forall|i: int| 0 <= i < b.len() implies #[trigger] two[i] == t[i] by {
            if i < contents.len() {
                assert(b[i] == contents[i]);
                assert(!signature_kind(contents[i].kind));
            }
        }
        assert(two =~= t);
    }
}

/// A signature that was made over these octets is accepted.
proof fn lemma_kind_accepted<
    C: Fn(&EncryptionKey, u32, &SignInput) -> Result<Vec<u8>, Error>,
    B: Fn(&Vec<u8>, u32) -> Result<Option<Vec<u8>>, PacFault>,
    K: Fn(&EncryptionKey, u32, &Vec<u8>, i32, &Vec<u8>) -> CksumOutcome,
>(
    types: Seq<CksumType>,
    pac: Vec<u8>,
    key: EncryptionKey,
    form: SignatureForm,
    kind: u32,
    bs: Seq<BufferView>,
    input: InputView,
    mac: Seq<u8>,
    encoding: spec_fn(Seq<BufferView>) -> Seq<u8>,
    checksum: C,
    buffer: B,
    check: K,
    r: Result<(), Error>,
)
    requires
        form_is_known(types, form),
        kind == PAC_SERVER_CHECKSUM ==> form.cksumtype != CKSUMTYPE_SHA1,
        reads_buffers(buffer, pac, bs),
        checks_what_is_made(checksum, check, encoding, key, form),
        made(checksum, key, input, mac),
        0 <= kind_position(bs, kind) < bs.len(),
        bs[kind_position(bs, kind)].data == signature_data(form.cksumtype, mac),
        kind_result(types, pac, key, kind, input_octets(input, encoding), buffer, check, r),
    ensures
        r == Ok::<(), Error>(()),
        mac.len() == form.len,
{
    let (x, v) = choose|x: SignInput, v: Vec<u8>|
        x@ == input && v@ == mac && #[trigger] call_ensures(
            checksum,
            (&key, KU_PAC_SIGNATURE, &x),
            Ok::<Vec<u8>, Error>(v),
        );
    assert(mac.len() == form.len);
    law_signature_round_trip(types, form.cksumtype, mac, kind);
}

/// The length of a checksum that was made.
proof fn lemma_made_len<
    C: Fn(&EncryptionKey, u32, &SignInput) -> Result<Vec<u8>, Error>,
    K: Fn(&EncryptionKey, u32, &Vec<u8>, i32, &Vec<u8>) -> CksumOutcome,
>(
    key: EncryptionKey,
    form: SignatureForm,
    input: InputView,
    mac: Seq<u8>,
    encoding: spec_fn(Seq<BufferView>) -> Seq<u8>,
    checksum: C,
    check: K,
)
    requires
        checks_what_is_made(checksum, check, encoding, key, form),
        made(checksum, key, input, mac),
    ensures
        mac.len() == form.len,
{
}

/// A PAC that was signed for a server under its key and the KDC's is accepted by who
/// verifies it under the same keys: where the checking function finds right what the
/// signing function made, and the forms of the signatures are known. `encoding` is the
/// encoding of a PAC; `buffer` and `zeroed` read the octets `pac` of the signed PAC;
/// `ticket` is the ticket that the PAC was signed for, where it is at hand.
pub proof fn law_signed_pac_is_accepted<
    G: Fn(i32) -> SignatureForm,
    C: Fn(&EncryptionKey, u32, &SignInput) -> Result<Vec<u8>, Error>,
    Z: Fn(&Vec<u8>, &Vec<u32>) -> Result<Vec<u8>, PacFault>,
    B: Fn(&Vec<u8>, u32) -> Result<Option<Vec<u8>>, PacFault>,
    K: Fn(&EncryptionKey, u32, &Vec<u8>, i32, &Vec<u8>) -> CksumOutcome,
>(
    subject: Option<Seq<BufferView>>,
    logon: Option<Seq<u8>>,
    fresh: FreshPac,
    is_service_tkt: bool,
    server_key: EncryptionKey,
    kdc_key: EncryptionKey,
    server: SignatureForm,
    kdc: SignatureForm,
    enc_tkt: Seq<u8>,
    form: G,
    checksum: C,
    signed: Vec<PacBuffer>,
    types: Seq<CksumType>,
    pac: Vec<u8>,
    ticket: Option<&Vec<u8>>,
    encoding: spec_fn(Seq<BufferView>) -> Seq<u8>,
    zeroed: Z,
    buffer: B,
    check: K,
    r: Result<(), Error>,
)
    requires
        forall|f: SignatureForm| #[trigger]
            call_ensures(form, (server_key.keytype,), f) ==> f == server,
        forall|f: SignatureForm| #[trigger] call_ensures(form, (kdc_key.keytype,), f) ==> f == kdc,
        reply_signed(
            pac_contents(subject, logon, fresh),
            is_service_tkt,
            server_key,
            kdc_key,
            enc_tkt,
            form,
            checksum,
            Ok(signed),
        ),
        form_is_known(types, server),
        form_is_known(types, kdc),
        server.cksumtype != CKSUMTYPE_SHA1,
        checks_what_is_made(checksum, check, encoding, server_key, server),
        checks_what_is_made(checksum, check, encoding, kdc_key, kdc),
        reads_buffers(buffer, pac, buffers_view(signed@)),
        blanks_buffers(zeroed, pac, buffers_view(signed@), encoding),
        ticket matches Some(t) ==> t@ == enc_tkt,
        pac_result(
            types,
            pac,
            server_key,
            Some(kdc_key),
            ticket,
            is_service_tkt,
            zeroed,
            buffer,
            check,
            r,
        ),
    ensures
        r == Ok::<(), Error>(()),
{
    let contents = pac_contents(subject, logon, fresh);
    lemma_contents(subject, logon, fresh);
    let b = unsigned_reply(contents, is_service_tkt, server, kdc);
    assert(signed_in_form(
        contents,
        is_service_tkt,
        server_key,
        kdc_key,
        server,
        kdc,
        enc_tkt,
        checksum,
        Ok(signed),
    ));
    let m = choose|m: Macs| #[trigger]
        signed_with(checksum, b, is_service_tkt, server_key, kdc_key, kdc, enc_tkt, m)
            && buffers_view(signed@) == all_signed(b, is_service_tkt, server, kdc, m);
    let s = buffers_view(signed@);
    let first = InputView::Octets(enc_tkt);
    let second = InputView::Pac(ticket_signed(b, is_service_tkt, kdc, m));
    let third = InputView::Pac(full_signed(b, is_service_tkt, kdc, m));
    let fourth = InputView::Octets(m.server);
    lemma_made_len(server_key, server, third, m.server, encoding, checksum, check);
    lemma_made_len(kdc_key, kdc, fourth, m.privsvr, encoding, checksum, check);
    if is_service_tkt {
        lemma_made_len(kdc_key, kdc, second, m.full, encoding, checksum, check);
    }
    lemma_signed_places(contents, is_service_tkt, server, kdc, m);
    lemma_signed_blanks(contents, is_service_tkt, server, kdc, m);
    let t = choose|t: Result<(), Error>|
        {
            &&& #[trigger] ticket_result(
                types,
                pac,
                Some(kdc_key),
                ticket,
                is_service_tkt,
                buffer,
                check,
                t,
            )
            &&& if t is Err {
                r == t
            } else {
                pac_checksums_result(
                    types,
                    pac,
                    server_key,
                    Some(kdc_key),
                    is_service_tkt,
                    zeroed,
                    buffer,
                    check,
                    r,
                )
            }
        };
    if is_service_tkt && ticket is Some {
        lemma_kind_accepted(
            types,
            pac,
            kdc_key,
            kdc,
            PAC_TICKET_CHECKSUM,
            s,
            first,
            m.ticket,
            encoding,
            checksum,
            buffer,
            check,
            t,
        );
    }
    assert(t is Ok);
    let q = choose|q: Result<(), Error>|
        {
            &&& #[trigger] blanked_result(
                types,
                pac,
                server_key,
                PAC_SERVER_CHECKSUM,
                server_blanks(),
                zeroed,
                buffer,
                check,
                q,
            )
            &&& if q is Err {
                r == q
            } else if !is_service_tkt {
                privsvr_result(types, pac, kdc_key, buffer, check, r)
            } else {
                exists|f: Result<(), Error>|
                    {
                        &&& #[trigger] blanked_result(
                            types,
                            pac,
                            kdc_key,
                            PAC_FULL_CHECKSUM,
                            full_blanks(),
                            zeroed,
                            buffer,
                            check,
                            f,
                        )
                        &&& if f is Err {
                            r == f
                        } else {
                            privsvr_result(types, pac, kdc_key, buffer, check, r)
                        }
                    }
            }
        };
    lemma_blanked_accepted(
        types,
        pac,
        server_key,
        server,
        PAC_SERVER_CHECKSUM,
        server_blanks(),
        s,
        third,
        m.server,
        encoding,
        checksum,
        zeroed,
        buffer,
        check,
        q,
    );
    if is_service_tkt {
        let f = choose|f: Result<(), Error>|
            {
                &&& #[trigger] blanked_result(
                    types,
                    pac,
                    kdc_key,
                    PAC_FULL_CHECKSUM,
                    full_blanks(),
                    zeroed,
                    buffer,
                    check,
                    f,
                )
                &&& if f is Err {
                    r == f
                } else {
                    privsvr_result(types, pac, kdc_key, buffer, check, r)
                }
            };
        lemma_blanked_accepted(
            types,
            pac,
            kdc_key,
            kdc,
            PAC_FULL_CHECKSUM,
            full_blanks(),
            s,
            second,
            m.full,
            encoding,
            checksum,
            zeroed,
            buffer,
            check,
            f,
        );
    }
    assert(privsvr_result(types, pac, kdc_key, buffer, check, r));
    assert(signature_data(server.cksumtype, m.server).skip(4) =~= m.server);
    lemma_kind_accepted(
        types,
        pac,
        kdc_key,
        kdc,
        PAC_PRIVSVR_CHECKSUM,
        s,
        fourth,
        m.privsvr,
        encoding,
        checksum,
        buffer,
        check,
        r,
    );
}

/// A signature that was made over the PAC with some signatures blank is accepted.
proof fn lemma_blanked_accepted<
    C: Fn(&EncryptionKey, u32, &SignInput) -> Result<Vec<u8>, Error>,
    Z: Fn(&Vec<u8>, &Vec<u32>) -> Result<Vec<u8>, PacFault>,
    B: Fn(&Vec<u8>, u32) -> Result<Option<Vec<u8>>, PacFault>,
    K: Fn(&EncryptionKey, u32, &Vec<u8>, i32, &Vec<u8>) -> CksumOutcome,
>(
    types: Seq<CksumType>,
    pac: Vec<u8>,
    key: EncryptionKey,
    form: SignatureForm,
    kind: u32,
    kinds: Seq<u32>,
    bs: Seq<BufferView>,
    input: InputView,
    mac: Seq<u8>,
    encoding: spec_fn(Seq<BufferView>) -> Seq<u8>,
    checksum: C,
    zeroed: Z,
    buffer: B,
    check: K,
    r: Result<(), Error>,
)
    requires
        form_is_known(types, form),
        kind == PAC_SERVER_CHECKSUM ==> form.cksumtype != CKSUMTYPE_SHA1,
        reads_buffers(buffer, pac, bs),
        blanks_buffers(zeroed, pac, bs, encoding),
        checks_what_is_made(checksum, check, encoding, key, form),
        made(checksum, key, input, mac),
        input == InputView::Pac(with_blanks(bs, kinds)),
        0 <= kind_position(bs, kind) < bs.len(),
        bs[kind_position(bs, kind)].data == signature_data(form.cksumtype, mac),
        blanked_result(types, pac, key, kind, kinds, zeroed, buffer, check, r),
    ensures
        r == Ok::<(), Error>(()),
{
    let d = choose|d: Result<Vec<u8>, PacFault>|
        {
            &&& #[trigger] blanked(zeroed, pac, kinds, d)
            &&& match d {
                Err(f) => r == Err::<(), Error>(crate::ad::verify::fault_refusal(f)),
                Ok(data) => kind_result(types, pac, key, kind, data@, buffer, check, r),
            }
        };
    let x = choose|x: Vec<u32>| x@ == kinds && #[trigger] call_ensures(zeroed, (&pac, &x), d);
    assert(d is Ok);
    lemma_kind_accepted(
        types,
        pac,
        key,
        form,
        kind,
        bs,
        input,
        mac,
        encoding,
        checksum,
        buffer,
        check,
        r,
    );
}

} // verus!
