//! Verifying the signatures of a PAC: which octets each of them is over, under
//! which key, and in which order they count.

use crate::ad::{
    cksum_form, has_ticket_signature, judge_pac_versions, pac_privsvr_key, pac_signature_outcome,
    pac_verify_retryable, read_pac_signature, retryable, should_have_ticket_signature,
    signature_refusal, slice_view, spec_pac_signature_outcome, spec_verified_pac, CksumOutcome,
    CksumType,
};
use crate::bytes::{copy_range, from_le32};
use crate::error::{proto, refusal, Error, Status, GENERIC, MODIFIED};
use crate::msg::{key_octets, EncTicketPart, EncryptionKey};
use crate::pac::{
    opt_octets, PAC_FULL_CHECKSUM, PAC_PRIVSVR_CHECKSUM, PAC_SERVER_CHECKSUM, PAC_TICKET_CHECKSUM,
};
use crate::store::{lemma_max_kvno, max_kvno, KeyEntry, Principal};
use vstd::prelude::*;

verus! {

/// Key usage of the signatures of a PAC.
pub const KU_PAC_SIGNATURE: u32 = 17;

/// Why a buffer of a PAC could not be had.
#[derive(Clone, Copy, Debug, PartialEq, Eq, Structural)]
pub enum PacFault {
    /// A buffer is missing.
    MissingBuffer,
    /// The PAC ends too early.
    Truncated,
    /// The PAC was modified.
    Integrity,
    /// The PAC is malformed.
    Malformed,
}

/// The refusal of a PAC with a fault.
pub open spec fn fault_refusal(f: PacFault) -> Error {
    match f {
        PacFault::Integrity => refusal(MODIFIED, Status::HeaderPac),
        _ => refusal(GENERIC, Status::HeaderPac),
    }
}

/// The refusal of a PAC with a fault.
pub fn map_pac_err(f: PacFault) -> (r: Error)
    ensures
        r == fault_refusal(f),
{
    match f {
        PacFault::Integrity => proto(MODIFIED, Status::HeaderPac),
        _ => proto(GENERIC, Status::HeaderPac),
    }
}

/// `check` gave `o` for a signature of a PAC over these octets.
pub open spec fn signature_checked<
    C: Fn(&EncryptionKey, u32, &Vec<u8>, i32, &Vec<u8>) -> CksumOutcome,
>(
    check: C,
    key: EncryptionKey,
    data: Seq<u8>,
    cksumtype: i32,
    mac: Seq<u8>,
    o: CksumOutcome,
) -> bool {
    exists|x: Vec<u8>, m: Vec<u8>|
        x@ == data && m@ == mac && #[trigger] call_ensures(
            check,
            (&key, KU_PAC_SIGNATURE, &x, cksumtype, &m),
            o,
        )
}

/// What verifying one signature of a PAC comes to: its buffer must be well
/// formed, and its checksum right over `data`.
pub open spec fn signature_result<
    C: Fn(&EncryptionKey, u32, &Vec<u8>, i32, &Vec<u8>) -> CksumOutcome,
>(
    types: Seq<CksumType>,
    key: EncryptionKey,
    data: Seq<u8>,
    buf: Option<Seq<u8>>,
    kind: u32,
    check: C,
    r: Result<(), Error>,
) -> bool {
    match signature_refusal(types, buf, kind) {
        Some(e) => r == Err::<(), Error>(e),
        None => exists|o: CksumOutcome|
            {
                &&& #[trigger] signature_checked(
                    check,
                    key,
                    data,
                    from_le32(buf->0, 0) as i32,
                    buf->0.subrange(
                        4,
                        4 + cksum_form(types, from_le32(buf->0, 0) as i32)->0.size as int,
                    ),
                    o,
                )
                &&& r == spec_pac_signature_outcome(o)
            },
    }
}

/// Verifies one signature of a PAC.
fn verify_pac_sig<C: Fn(&EncryptionKey, u32, &Vec<u8>, i32, &Vec<u8>) -> CksumOutcome>(
    types: &[CksumType],
    key: &EncryptionKey,
    data: &Vec<u8>,
    buf: Option<&[u8]>,
    kind: u32,
    check: &C,
) -> (r: Result<(), Error>)
    requires
        forall|k: EncryptionKey, u: u32, x: Vec<u8>, t: i32, m: Vec<u8>| #[trigger]
            call_requires(*check, (&k, u, &x, t, &m)),
    ensures
        signature_result(types@, *key, data@, slice_view(buf), kind, *check, r),
{
    let sig = match read_pac_signature(types, buf, kind) {
        Err(e) => {
            return Err(e);
        },
        Ok(s) => s,
    };
    let o = check(key, KU_PAC_SIGNATURE, data, sig.cksumtype, &sig.mac);
    assert(signature_checked(*check, *key, data@, sig.cksumtype, sig.mac@, o));
    pac_signature_outcome(o)
}

/// What verifying the signature of a kind over these octets comes to; `buffer`
/// gives the buffer of a kind.
pub open spec fn kind_result<
    B: Fn(&Vec<u8>, u32) -> Result<Option<Vec<u8>>, PacFault>,
    C: Fn(&EncryptionKey, u32, &Vec<u8>, i32, &Vec<u8>) -> CksumOutcome,
>(
    types: Seq<CksumType>,
    pac: Vec<u8>,
    key: EncryptionKey,
    kind: u32,
    data: Seq<u8>,
    buffer: B,
    check: C,
    r: Result<(), Error>,
) -> bool {
    exists|b: Result<Option<Vec<u8>>, PacFault>|
        {
            &&& #[trigger] call_ensures(buffer, (&pac, kind), b)
            &&& match b {
                Err(f) => r == Err::<(), Error>(fault_refusal(f)),
                Ok(v) => signature_result(types, key, data, opt_octets(v), kind, check, r),
            }
        }
}

/// Verifies the signature of a kind.
fn verify_kind<
    B: Fn(&Vec<u8>, u32) -> Result<Option<Vec<u8>>, PacFault>,
    C: Fn(&EncryptionKey, u32, &Vec<u8>, i32, &Vec<u8>) -> CksumOutcome,
>(
    types: &[CksumType],
    pac: &Vec<u8>,
    key: &EncryptionKey,
    kind: u32,
    data: &Vec<u8>,
    buffer: &B,
    check: &C,
) -> (r: Result<(), Error>)
    requires
        forall|p: Vec<u8>, k: u32| #[trigger] call_requires(*buffer, (&p, k)),
        forall|k: EncryptionKey, u: u32, x: Vec<u8>, t: i32, m: Vec<u8>| #[trigger]
            call_requires(*check, (&k, u, &x, t, &m)),
    ensures
        kind_result(types@, *pac, *key, kind, data@, *buffer, *check, r),
{
    let b = buffer(pac, kind);
    assert(call_ensures(*buffer, (pac, kind), b));
    match &b {
        Err(f) => Err(map_pac_err(*f)),
        Ok(v) => {
            let buf: Option<&[u8]> = match v {
                Some(x) => Some(x.as_slice()),
                None => None,
            };
            assert(slice_view(buf) == opt_octets(*v));
            verify_pac_sig(types, key, data, buf, kind, check)
        },
    }
}

/// `zeroed` gave `d` for the PAC as received with these signatures blank.
pub open spec fn blanked<Z: Fn(&Vec<u8>, &Vec<u32>) -> Result<Vec<u8>, PacFault>>(
    zeroed: Z,
    pac: Vec<u8>,
    kinds: Seq<u32>,
    d: Result<Vec<u8>, PacFault>,
) -> bool {
    exists|x: Vec<u32>| x@ == kinds && #[trigger] call_ensures(zeroed, (&pac, &x), d)
}

/// What verifying the signature of a kind over the PAC with some signatures
/// blank comes to.
pub open spec fn blanked_result<
    Z: Fn(&Vec<u8>, &Vec<u32>) -> Result<Vec<u8>, PacFault>,
    B: Fn(&Vec<u8>, u32) -> Result<Option<Vec<u8>>, PacFault>,
    C: Fn(&EncryptionKey, u32, &Vec<u8>, i32, &Vec<u8>) -> CksumOutcome,
>(
    types: Seq<CksumType>,
    pac: Vec<u8>,
    key: EncryptionKey,
    kind: u32,
    kinds: Seq<u32>,
    zeroed: Z,
    buffer: B,
    check: C,
    r: Result<(), Error>,
) -> bool {
    exists|d: Result<Vec<u8>, PacFault>|
        {
            &&& #[trigger] blanked(zeroed, pac, kinds, d)
            &&& match d {
                Err(f) => r == Err::<(), Error>(fault_refusal(f)),
                Ok(data) => kind_result(types, pac, key, kind, data@, buffer, check, r),
            }
        }
}

/// Verifies the signature of a kind over the PAC with some signatures blank.
fn verify_blanked<
    Z: Fn(&Vec<u8>, &Vec<u32>) -> Result<Vec<u8>, PacFault>,
    B: Fn(&Vec<u8>, u32) -> Result<Option<Vec<u8>>, PacFault>,
    C: Fn(&EncryptionKey, u32, &Vec<u8>, i32, &Vec<u8>) -> CksumOutcome,
>(
    types: &[CksumType],
    pac: &Vec<u8>,
    key: &EncryptionKey,
    kind: u32,
    kinds: &Vec<u32>,
    zeroed: &Z,
    buffer: &B,
    check: &C,
) -> (r: Result<(), Error>)
    requires
        forall|p: Vec<u8>, x: Vec<u32>| #[trigger] call_requires(*zeroed, (&p, &x)),
        forall|p: Vec<u8>, k: u32| #[trigger] call_requires(*buffer, (&p, k)),
        forall|k: EncryptionKey, u: u32, x: Vec<u8>, t: i32, m: Vec<u8>| #[trigger]
            call_requires(*check, (&k, u, &x, t, &m)),
    ensures
        blanked_result(types@, *pac, *key, kind, kinds@, *zeroed, *buffer, *check, r),
{
    let d = zeroed(pac, kinds);
    assert(blanked(*zeroed, *pac, kinds@, d));
    match d {
        Err(f) => Err(map_pac_err(f)),
        Ok(data) => verify_kind(types, pac, key, kind, &data, buffer, check),
    }
}

/// What verifying the KDC's signature comes to: it is over the checksum of the
/// server signature.
pub open spec fn privsvr_result<
    B: Fn(&Vec<u8>, u32) -> Result<Option<Vec<u8>>, PacFault>,
    C: Fn(&EncryptionKey, u32, &Vec<u8>, i32, &Vec<u8>) -> CksumOutcome,
>(
    types: Seq<CksumType>,
    pac: Vec<u8>,
    kdc: EncryptionKey,
    buffer: B,
    check: C,
    r: Result<(), Error>,
) -> bool {
    exists|b: Result<Option<Vec<u8>>, PacFault>|
        {
            &&& #[trigger] call_ensures(buffer, (&pac, PAC_SERVER_CHECKSUM), b)
            &&& match b {
                Err(f) => r == Err::<(), Error>(fault_refusal(f)),
                Ok(None) => r == Err::<(), Error>(refusal(GENERIC, Status::HeaderPac)),
                Ok(Some(v)) => if v@.len() < 4 {
                    r == Err::<(), Error>(refusal(GENERIC, Status::HeaderPac))
                } else {
                    kind_result(types, pac, kdc, PAC_PRIVSVR_CHECKSUM, v@.skip(4), buffer, check, r)
                },
            }
        }
}

/// Verifies the KDC's signature.
fn verify_privsvr<
    B: Fn(&Vec<u8>, u32) -> Result<Option<Vec<u8>>, PacFault>,
    C: Fn(&EncryptionKey, u32, &Vec<u8>, i32, &Vec<u8>) -> CksumOutcome,
>(
    types: &[CksumType],
    pac: &Vec<u8>,
    kdc: &EncryptionKey,
    buffer: &B,
    check: &C,
) -> (r: Result<(), Error>)
    requires
        forall|p: Vec<u8>, k: u32| #[trigger] call_requires(*buffer, (&p, k)),
        forall|k: EncryptionKey, u: u32, x: Vec<u8>, t: i32, m: Vec<u8>| #[trigger]
            call_requires(*check, (&k, u, &x, t, &m)),
    ensures
        privsvr_result(types@, *pac, *kdc, *buffer, *check, r),
{
    let b = buffer(pac, PAC_SERVER_CHECKSUM);
    assert(call_ensures(*buffer, (pac, PAC_SERVER_CHECKSUM), b));
    match b {
        Err(f) => Err(map_pac_err(f)),
        Ok(None) => Err(proto(GENERIC, Status::HeaderPac)),
        Ok(Some(v)) => {
            if v.len() < 4 {
                return Err(proto(GENERIC, Status::HeaderPac));
            }
            let data = copy_range(v.as_slice(), 4, v.len());
            assert(data@ =~= v@.skip(4));
            verify_kind(types, pac, kdc, PAC_PRIVSVR_CHECKSUM, &data, buffer, check)
        },
    }
}

/// The signatures that are blank where the server signature is made.
pub open spec fn server_blanks() -> Seq<u32> {
    seq![PAC_SERVER_CHECKSUM, PAC_PRIVSVR_CHECKSUM]
}

/// The signatures that are blank where the full signature is made.
pub open spec fn full_blanks() -> Seq<u32> {
    seq![PAC_SERVER_CHECKSUM, PAC_PRIVSVR_CHECKSUM, PAC_FULL_CHECKSUM]
}

/// What verifying the signatures inside a PAC comes to: the server signature
/// always, over the PAC with the two signatures blank; with the KDC's key the
/// full signature, where it is expected, over the PAC with all three blank,
/// and the KDC's signature.
pub open spec fn pac_checksums_result<
    Z: Fn(&Vec<u8>, &Vec<u32>) -> Result<Vec<u8>, PacFault>,
    B: Fn(&Vec<u8>, u32) -> Result<Option<Vec<u8>>, PacFault>,
    C: Fn(&EncryptionKey, u32, &Vec<u8>, i32, &Vec<u8>) -> CksumOutcome,
>(
    types: Seq<CksumType>,
    pac: Vec<u8>,
    server: EncryptionKey,
    kdc: Option<EncryptionKey>,
    expect_full: bool,
    zeroed: Z,
    buffer: B,
    check: C,
    r: Result<(), Error>,
) -> bool {
    exists|s: Result<(), Error>|
        {
            &&& #[trigger] blanked_result(
                types,
                pac,
                server,
                PAC_SERVER_CHECKSUM,
                server_blanks(),
                zeroed,
                buffer,
                check,
                s,
            )
            &&& if s is Err {
                r == s
            } else {
                match kdc {
                    None => r == s,
                    Some(k) => if !expect_full {
                        privsvr_result(types, pac, k, buffer, check, r)
                    } else {
                        exists|f: Result<(), Error>|
                            {
                                &&& #[trigger] blanked_result(
                                    types,
                                    pac,
                                    k,
                                    PAC_FULL_CHECKSUM,
                                    full_blanks(),
                                    zeroed,
                                    buffer,
                                    check,
                                    f,
                                )
                                &&& if f is Err {
                                    r == f
                                } else {
                                    privsvr_result(types, pac, k, buffer, check, r)
                                }
                            }
                    },
                }
            }
        }
}

/// Verifies the signatures inside a PAC.
pub fn verify_pac_checksums<
    Z: Fn(&Vec<u8>, &Vec<u32>) -> Result<Vec<u8>, PacFault>,
    B: Fn(&Vec<u8>, u32) -> Result<Option<Vec<u8>>, PacFault>,
    C: Fn(&EncryptionKey, u32, &Vec<u8>, i32, &Vec<u8>) -> CksumOutcome,
>(
    types: &[CksumType],
    pac: &Vec<u8>,
    server: &EncryptionKey,
    kdc: &Option<EncryptionKey>,
    expect_full: bool,
    zeroed: &Z,
    buffer: &B,
    check: &C,
) -> (r: Result<(), Error>)
    requires
        forall|p: Vec<u8>, x: Vec<u32>| #[trigger] call_requires(*zeroed, (&p, &x)),
        forall|p: Vec<u8>, k: u32| #[trigger] call_requires(*buffer, (&p, k)),
        forall|k: EncryptionKey, u: u32, x: Vec<u8>, t: i32, m: Vec<u8>| #[trigger]
            call_requires(*check, (&k, u, &x, t, &m)),
    ensures
        pac_checksums_result(types@, *pac, *server, *kdc, expect_full, *zeroed, *buffer, *check, r),
{
    let mut kinds: Vec<u32> = Vec::new();
    kinds.push(PAC_SERVER_CHECKSUM);
    kinds.push(PAC_PRIVSVR_CHECKSUM);
    assert(kinds@ =~= server_blanks());
    let s = verify_blanked(types, pac, server, PAC_SERVER_CHECKSUM, &kinds, zeroed, buffer, check);
    match s {
        Err(e) => {
            return Err(e);
        },
        Ok(()) => {},
    }
    let k = match kdc {
        None => {
            return Ok(());
        },
        Some(k) => k,
    };
    if expect_full {
        kinds.push(PAC_FULL_CHECKSUM);
        assert(kinds@ =~= full_blanks());
        let f = verify_blanked(types, pac, k, PAC_FULL_CHECKSUM, &kinds, zeroed, buffer, check);
        match f {
            Err(e) => {
                return Err(e);
            },
            Ok(()) => {},
        }
    }
    verify_privsvr(types, pac, k, buffer, check)
}

/// What verifying the ticket signature comes to: only with the KDC's key, for
/// a service ticket that is at hand, over the ticket with a blank PAC.
pub open spec fn ticket_result<
    B: Fn(&Vec<u8>, u32) -> Result<Option<Vec<u8>>, PacFault>,
    C: Fn(&EncryptionKey, u32, &Vec<u8>, i32, &Vec<u8>) -> CksumOutcome,
>(
    types: Seq<CksumType>,
    pac: Vec<u8>,
    kdc: Option<EncryptionKey>,
    ticket: Option<&Vec<u8>>,
    is_service_tkt: bool,
    buffer: B,
    check: C,
    r: Result<(), Error>,
) -> bool {
    if kdc is Some && ticket is Some && is_service_tkt {
        kind_result(types, pac, kdc->0, PAC_TICKET_CHECKSUM, ticket->0@, buffer, check, r)
    } else {
        r == Ok::<(), Error>(())
    }
}

/// What verifying a PAC comes to: the ticket signature first, then the
/// signatures inside.
pub open spec fn pac_result<
    Z: Fn(&Vec<u8>, &Vec<u32>) -> Result<Vec<u8>, PacFault>,
    B: Fn(&Vec<u8>, u32) -> Result<Option<Vec<u8>>, PacFault>,
    C: Fn(&EncryptionKey, u32, &Vec<u8>, i32, &Vec<u8>) -> CksumOutcome,
>(
    types: Seq<CksumType>,
    pac: Vec<u8>,
    server: EncryptionKey,
    kdc: Option<EncryptionKey>,
    ticket: Option<&Vec<u8>>,
    is_service_tkt: bool,
    zeroed: Z,
    buffer: B,
    check: C,
    r: Result<(), Error>,
) -> bool {
    exists|t: Result<(), Error>|
        {
            &&& #[trigger] ticket_result(types, pac, kdc, ticket, is_service_tkt, buffer, check, t)
            &&& if t is Err {
                r == t
            } else {
                pac_checksums_result(types, pac, server, kdc, is_service_tkt, zeroed, buffer, check, r)
            }
        }
}

/// Verifies a PAC: the server signature always; with the KDC's key its
/// signature too, and for a service ticket the full signature and, where the
/// ticket is at hand, the ticket signature. `ticket` is the ticket with a
/// blank PAC, `zeroed` gives the octets of a PAC with some signatures blank,
/// `buffer` its buffer of a kind, and `check` verifies a checksum under a key
/// and a usage.
pub fn verify_pac_signatures<
    Z: Fn(&Vec<u8>, &Vec<u32>) -> Result<Vec<u8>, PacFault>,
    B: Fn(&Vec<u8>, u32) -> Result<Option<Vec<u8>>, PacFault>,
    C: Fn(&EncryptionKey, u32, &Vec<u8>, i32, &Vec<u8>) -> CksumOutcome,
>(
    types: &[CksumType],
    pac: &Vec<u8>,
    server: &EncryptionKey,
    kdc: &Option<EncryptionKey>,
    ticket: Option<&Vec<u8>>,
    is_service_tkt: bool,
    zeroed: &Z,
    buffer: &B,
    check: &C,
) -> (r: Result<(), Error>)
    requires
        forall|p: Vec<u8>, x: Vec<u32>| #[trigger] call_requires(*zeroed, (&p, &x)),
        forall|p: Vec<u8>, k: u32| #[trigger] call_requires(*buffer, (&p, k)),
        forall|k: EncryptionKey, u: u32, x: Vec<u8>, t: i32, m: Vec<u8>| #[trigger]
            call_requires(*check, (&k, u, &x, t, &m)),
    ensures
        pac_result(
            types@,
            *pac,
            *server,
            *kdc,
            ticket,
            is_service_tkt,
            *zeroed,
            *buffer,
            *check,
            r,
        ),
{
    let t: Result<(), Error> = match (kdc, ticket) {
        (Some(k), Some(der)) => if is_service_tkt {
            verify_kind(types, pac, k, PAC_TICKET_CHECKSUM, der, buffer, check)
        } else {
            Ok(())
        },
        _ => Ok(()),
    };
    assert(ticket_result(types@, *pac, *kdc, ticket, is_service_tkt, *buffer, *check, t));
    match t {
        Err(e) => {
            return Err(e);
        },
        Ok(()) => {},
    }
    verify_pac_checksums(types, pac, server, kdc, is_service_tkt, zeroed, buffer, check)
}

/// Verifies a PAC without its ticket.
pub fn verify_pac<
    Z: Fn(&Vec<u8>, &Vec<u32>) -> Result<Vec<u8>, PacFault>,
    B: Fn(&Vec<u8>, u32) -> Result<Option<Vec<u8>>, PacFault>,
    C: Fn(&EncryptionKey, u32, &Vec<u8>, i32, &Vec<u8>) -> CksumOutcome,
>(
    types: &[CksumType],
    pac: &Vec<u8>,
    server: &EncryptionKey,
    kdc: EncryptionKey,
    is_service_tkt: bool,
    zeroed: &Z,
    buffer: &B,
    check: &C,
) -> (r: Result<(), Error>)
    requires
        forall|p: Vec<u8>, x: Vec<u32>| #[trigger] call_requires(*zeroed, (&p, &x)),
        forall|p: Vec<u8>, k: u32| #[trigger] call_requires(*buffer, (&p, k)),
        forall|k: EncryptionKey, u: u32, x: Vec<u8>, t: i32, m: Vec<u8>| #[trigger]
            call_requires(*check, (&k, u, &x, t, &m)),
    ensures
        pac_result(
            types@,
            *pac,
            *server,
            Some(kdc),
            None,
            is_service_tkt,
            *zeroed,
            *buffer,
            *check,
            r,
        ),
{
    verify_pac_signatures(types, pac, server, &Some(kdc), None, is_service_tkt, zeroed, buffer, check)
}

/// A PAC that is accepted carries every signature that is asked of it: that of
/// the server over the PAC as received; with the KDC's key that of the KDC;
/// and for a service ticket the full one and, where the ticket is at hand, the
/// one over the ticket.
pub proof fn law_accepted_pac_is_signed<
    Z: Fn(&Vec<u8>, &Vec<u32>) -> Result<Vec<u8>, PacFault>,
    B: Fn(&Vec<u8>, u32) -> Result<Option<Vec<u8>>, PacFault>,
    C: Fn(&EncryptionKey, u32, &Vec<u8>, i32, &Vec<u8>) -> CksumOutcome,
>(
    types: Seq<CksumType>,
    pac: Vec<u8>,
    server: EncryptionKey,
    kdc: Option<EncryptionKey>,
    ticket: Option<&Vec<u8>>,
    is_service_tkt: bool,
    zeroed: Z,
    buffer: B,
    check: C,
)
    requires
        pac_result(types, pac, server, kdc, ticket, is_service_tkt, zeroed, buffer, check, Ok(())),
    ensures
        blanked_result(
            types,
            pac,
            server,
            PAC_SERVER_CHECKSUM,
            server_blanks(),
            zeroed,
            buffer,
            check,
            Ok(()),
        ),
        kdc matches Some(k) ==> privsvr_result(types, pac, k, buffer, check, Ok(())),
        is_service_tkt ==> (kdc matches Some(k) ==> blanked_result(
            types,
            pac,
            k,
            PAC_FULL_CHECKSUM,
            full_blanks(),
            zeroed,
            buffer,
            check,
            Ok(()),
        )),
        is_service_tkt && ticket is Some ==> (kdc matches Some(k) ==> kind_result(
            types,
            pac,
            k,
            PAC_TICKET_CHECKSUM,
            ticket->0@,
            buffer,
            check,
            Ok(()),
        )),
{
}

/// The first key of a version is at `i`.
pub open spec fn first_of_version(ks: Seq<KeyEntry>, kvno: u32, i: int) -> bool {
    0 <= i < ks.len() && ks[i].kvno == kvno && forall|j: int|
        0 <= j < i ==> (#[trigger] ks[j]).kvno != kvno
}

/// No key has this version.
pub open spec fn none_of_version(ks: Seq<KeyEntry>, kvno: u32) -> bool {
    forall|j: int| 0 <= j < ks.len() ==> (#[trigger] ks[j]).kvno != kvno
}

/// `k` is the key of a version, where an entry has one: the first among its
/// keys, else the first among its older keys.
pub open spec fn version_key(p: Principal, kvno: u32, k: Option<KeyEntry>) -> bool {
    match k {
        Some(e) => {
            ||| exists|i: int| #[trigger] first_of_version(p.keys@, kvno, i) && e == p.keys@[i]
            ||| none_of_version(p.keys@, kvno) && exists|i: int| #[trigger]
                first_of_version(p.key_history@, kvno, i) && e == p.key_history@[i]
        },
        None => none_of_version(p.keys@, kvno) && none_of_version(p.key_history@, kvno),
    }
}

/// Finds the first key of a version.
fn first_version(ks: &[KeyEntry], kvno: u32) -> (r: Option<usize>)
    ensures
        match r {
            Some(i) => first_of_version(ks@, kvno, i as int),
            None => none_of_version(ks@, kvno),
        },
{
    let mut i: usize = 0;
    while i < ks.len()
        invariant
            i <= ks.len(),
            forall|j: int| 0 <= j < i ==> (#[trigger] ks@[j]).kvno != kvno,
        decreases ks.len() - i,
    {
        if ks[i].kvno == kvno {
            return Some(i);
        }
        i = i + 1;
    }
    None
}

/// Finds the key of a version.
fn find_version(p: &Principal, kvno: u32) -> (r: Option<&KeyEntry>)
    ensures
        match r {
            Some(e) => version_key(*p, kvno, Some(*e)),
            None => version_key(*p, kvno, None),
        },
{
    match first_version(p.keys.as_slice(), kvno) {
        Some(i) => {
            assert(first_of_version(p.keys@, kvno, i as int));
            Some(&p.keys[i])
        },
        None => match first_version(p.key_history.as_slice(), kvno) {
            Some(i) => {
                assert(first_of_version(p.key_history@, kvno, i as int));
                Some(&p.key_history[i])
            },
            None => None,
        },
    }
}

/// The newest version among keys.
fn newest_kvno(ks: &[KeyEntry]) -> (r: u32)
    ensures
        r == max_kvno(ks@),
{
    let mut v: u32 = 0;
    let mut i: usize = 0;
    assert(ks@.take(0) =~= Seq::<KeyEntry>::empty());
    while i < ks.len()
        invariant
            i <= ks.len(),
            v == max_kvno(ks@.take(i as int)),
        decreases ks.len() - i,
    {
        assert(ks@.take(i + 1).drop_last() =~= ks@.take(i as int));
        if ks[i].kvno > v {
            v = ks[i].kvno;
        }
        i = i + 1;
    }
    assert(ks@.take(ks@.len() as int) =~= ks@);
    v
}

/// Where there are keys, one is of the newest version.
proof fn lemma_newest_is_there(ks: Seq<KeyEntry>)
    requires
        ks.len() > 0,
    ensures
        !none_of_version(ks, max_kvno(ks)),
{
    lemma_max_kvno(ks);
    assert(ks[0].kvno <= max_kvno(ks));
}

/// The current key of an entry is at `i`: the first of the newest version.
pub open spec fn is_current(p: Principal, i: int) -> bool {
    first_of_version(p.keys@, max_kvno(p.keys@), i)
}

/// `k` is what making the key of the KDC's signatures comes to.
pub open spec fn made_privsvr<
    N: Fn(&String) -> Option<i32>,
    D: Fn(&EncryptionKey, &str, i32) -> Option<EncryptionKey>,
>(
    server: Principal,
    kdc: EncryptionKey,
    named: N,
    derive: D,
    k: Result<EncryptionKey, Error>,
) -> bool {
    crate::ad::privsvr_result(server, kdc, named, derive, k)
}

/// What verifying the PAC of a service ticket under one key of the KDC comes to: the
/// key of the KDC's signatures is made of it, as the server says.
pub open spec fn try_result<
    N: Fn(&String) -> Option<i32>,
    D: Fn(&EncryptionKey, &str, i32) -> Option<EncryptionKey>,
    Z: Fn(&Vec<u8>, &Vec<u32>) -> Result<Vec<u8>, PacFault>,
    B: Fn(&Vec<u8>, u32) -> Result<Option<Vec<u8>>, PacFault>,
    C: Fn(&EncryptionKey, u32, &Vec<u8>, i32, &Vec<u8>) -> CksumOutcome,
>(
    types: Seq<CksumType>,
    pac: Vec<u8>,
    ticket_key: EncryptionKey,
    server: Principal,
    der: Vec<u8>,
    named: N,
    derive: D,
    zeroed: Z,
    buffer: B,
    check: C,
    kdc: EncryptionKey,
    r: Result<(), Error>,
) -> bool {
    exists|k: Result<EncryptionKey, Error>| #[trigger]
        made_privsvr(server, kdc, named, derive, k) && (match k {
            Err(e) => r == Err::<(), Error>(e),
            Ok(x) => pac_result(
                types,
                pac,
                ticket_key,
                Some(x),
                Some(&der),
                has_ticket_signature(server.name@),
                zeroed,
                buffer,
                check,
                r,
            ),
        })
}

/// Verifies the PAC of a service ticket under one key of the KDC.
fn try_verify_pac<
    N: Fn(&String) -> Option<i32>,
    D: Fn(&EncryptionKey, &str, i32) -> Option<EncryptionKey>,
    Z: Fn(&Vec<u8>, &Vec<u32>) -> Result<Vec<u8>, PacFault>,
    B: Fn(&Vec<u8>, u32) -> Result<Option<Vec<u8>>, PacFault>,
    C: Fn(&EncryptionKey, u32, &Vec<u8>, i32, &Vec<u8>) -> CksumOutcome,
>(
    types: &[CksumType],
    pac: &Vec<u8>,
    ticket_key: &EncryptionKey,
    server: &Principal,
    der: &Vec<u8>,
    named: &N,
    derive: &D,
    zeroed: &Z,
    buffer: &B,
    check: &C,
    kdc: &EncryptionKey,
) -> (r: Result<(), Error>)
    requires
        forall|x: String| #[trigger] call_requires(*named, (&x,)),
        forall|k: EncryptionKey, l: &str, t: i32| #[trigger] call_requires(*derive, (&k, l, t)),
        forall|p: Vec<u8>, x: Vec<u32>| #[trigger] call_requires(*zeroed, (&p, &x)),
        forall|p: Vec<u8>, k: u32| #[trigger] call_requires(*buffer, (&p, k)),
        forall|k: EncryptionKey, u: u32, x: Vec<u8>, t: i32, m: Vec<u8>| #[trigger]
            call_requires(*check, (&k, u, &x, t, &m)),
    ensures
        try_result(
            types@,
            *pac,
            *ticket_key,
            *server,
            *der,
            *named,
            *derive,
            *zeroed,
            *buffer,
            *check,
            *kdc,
            r,
        ),
{
    let k = pac_privsvr_key(server, kdc, named, derive);
    assert(made_privsvr(*server, *kdc, *named, *derive, k));
    match k {
        Err(e) => Err(e),
        Ok(x) => {
            let privsvr = Some(x);
            verify_pac_signatures(
                types,
                pac,
                ticket_key,
                &privsvr,
                Some(der),
                should_have_ticket_signature(&server.name),
                zeroed,
                buffer,
                check,
            )
        },
    }
}

/// `r` is what verifying the PAC of a service ticket under this key of the KDC comes
/// to.
pub open spec fn entry_tried<
    N: Fn(&String) -> Option<i32>,
    D: Fn(&EncryptionKey, &str, i32) -> Option<EncryptionKey>,
    Z: Fn(&Vec<u8>, &Vec<u32>) -> Result<Vec<u8>, PacFault>,
    B: Fn(&Vec<u8>, u32) -> Result<Option<Vec<u8>>, PacFault>,
    C: Fn(&EncryptionKey, u32, &Vec<u8>, i32, &Vec<u8>) -> CksumOutcome,
>(
    types: Seq<CksumType>,
    pac: Vec<u8>,
    ticket_key: EncryptionKey,
    server: Principal,
    der: Vec<u8>,
    named: N,
    derive: D,
    zeroed: Z,
    buffer: B,
    check: C,
    entry: KeyEntry,
    r: Result<(), Error>,
) -> bool {
    exists|k: EncryptionKey|
        key_octets(k) == entry.octets() && #[trigger] try_result(
            types,
            pac,
            ticket_key,
            server,
            der,
            named,
            derive,
            zeroed,
            buffer,
            check,
            k,
            r,
        )
}

/// Verifies the PAC of a service ticket under this key of the KDC.
fn try_entry<
    N: Fn(&String) -> Option<i32>,
    D: Fn(&EncryptionKey, &str, i32) -> Option<EncryptionKey>,
    Z: Fn(&Vec<u8>, &Vec<u32>) -> Result<Vec<u8>, PacFault>,
    B: Fn(&Vec<u8>, u32) -> Result<Option<Vec<u8>>, PacFault>,
    C: Fn(&EncryptionKey, u32, &Vec<u8>, i32, &Vec<u8>) -> CksumOutcome,
>(
    types: &[CksumType],
    pac: &Vec<u8>,
    ticket_key: &EncryptionKey,
    server: &Principal,
    der: &Vec<u8>,
    named: &N,
    derive: &D,
    zeroed: &Z,
    buffer: &B,
    check: &C,
    entry: &KeyEntry,
) -> (r: Result<(), Error>)
    requires
        forall|x: String| #[trigger] call_requires(*named, (&x,)),
        forall|k: EncryptionKey, l: &str, t: i32| #[trigger] call_requires(*derive, (&k, l, t)),
        forall|p: Vec<u8>, x: Vec<u32>| #[trigger] call_requires(*zeroed, (&p, &x)),
        forall|p: Vec<u8>, k: u32| #[trigger] call_requires(*buffer, (&p, k)),
        forall|k: EncryptionKey, u: u32, x: Vec<u8>, t: i32, m: Vec<u8>| #[trigger]
            call_requires(*check, (&k, u, &x, t, &m)),
    ensures
        entry_tried(
            types@,
            *pac,
            *ticket_key,
            *server,
            *der,
            *named,
            *derive,
            *zeroed,
            *buffer,
            *check,
            *entry,
            r,
        ),
{
    let k = entry.to_key();
    let r = try_verify_pac(
        types,
        pac,
        ticket_key,
        server,
        der,
        named,
        derive,
        zeroed,
        buffer,
        check,
        &k,
    );
    assert(try_result(
        types@,
        *pac,
        *ticket_key,
        *server,
        *der,
        *named,
        *derive,
        *zeroed,
        *buffer,
        *check,
        k,
        r,
    ));
    r
}

/// `o` is what came of the key of an older version: whether it verified, or
/// `None` where there is no such key.
pub open spec fn older_tried<
    N: Fn(&String) -> Option<i32>,
    D: Fn(&EncryptionKey, &str, i32) -> Option<EncryptionKey>,
    Z: Fn(&Vec<u8>, &Vec<u32>) -> Result<Vec<u8>, PacFault>,
    B: Fn(&Vec<u8>, u32) -> Result<Option<Vec<u8>>, PacFault>,
    C: Fn(&EncryptionKey, u32, &Vec<u8>, i32, &Vec<u8>) -> CksumOutcome,
>(
    types: Seq<CksumType>,
    pac: Vec<u8>,
    ticket_key: EncryptionKey,
    server: Principal,
    der: Vec<u8>,
    named: N,
    derive: D,
    zeroed: Z,
    buffer: B,
    check: C,
    tgt: Principal,
    kvno: int,
    o: Option<bool>,
) -> bool {
    if kvno <= 0 {
        o is None
    } else {
        ||| version_key(tgt, kvno as u32, None) && o is None
        ||| exists|e: KeyEntry, v: Result<(), Error>|
            version_key(tgt, kvno as u32, Some(e)) && #[trigger] entry_tried(
                types,
                pac,
                ticket_key,
                server,
                der,
                named,
                derive,
                zeroed,
                buffer,
                check,
                e,
                v,
            ) && o == Some(v is Ok)
    }
}

/// Tries the key of an older version.
fn try_older<
    N: Fn(&String) -> Option<i32>,
    D: Fn(&EncryptionKey, &str, i32) -> Option<EncryptionKey>,
    Z: Fn(&Vec<u8>, &Vec<u32>) -> Result<Vec<u8>, PacFault>,
    B: Fn(&Vec<u8>, u32) -> Result<Option<Vec<u8>>, PacFault>,
    C: Fn(&EncryptionKey, u32, &Vec<u8>, i32, &Vec<u8>) -> CksumOutcome,
>(
    types: &[CksumType],
    pac: &Vec<u8>,
    ticket_key: &EncryptionKey,
    server: &Principal,
    der: &Vec<u8>,
    named: &N,
    derive: &D,
    zeroed: &Z,
    buffer: &B,
    check: &C,
    tgt: &Principal,
    kvno: u32,
) -> (o: Option<bool>)
    requires
        forall|x: String| #[trigger] call_requires(*named, (&x,)),
        forall|k: EncryptionKey, l: &str, t: i32| #[trigger] call_requires(*derive, (&k, l, t)),
        forall|p: Vec<u8>, x: Vec<u32>| #[trigger] call_requires(*zeroed, (&p, &x)),
        forall|p: Vec<u8>, k: u32| #[trigger] call_requires(*buffer, (&p, k)),
        forall|k: EncryptionKey, u: u32, x: Vec<u8>, t: i32, m: Vec<u8>| #[trigger]
            call_requires(*check, (&k, u, &x, t, &m)),
    ensures
        older_tried(
            types@,
            *pac,
            *ticket_key,
            *server,
            *der,
            *named,
            *derive,
            *zeroed,
            *buffer,
            *check,
            *tgt,
            kvno as int,
            o,
        ),
{
    if kvno == 0 {
        return None;
    }
    match find_version(tgt, kvno) {
        None => None,
        Some(e) => {
            let v = try_entry(
                types,
                pac,
                ticket_key,
                server,
                der,
                named,
                derive,
                zeroed,
                buffer,
                check,
                e,
            );
            assert(entry_tried(
                types@,
                *pac,
                *ticket_key,
                *server,
                *der,
                *named,
                *derive,
                *zeroed,
                *buffer,
                *check,
                *e,
                v,
            ));
            Some(v.is_ok())
        },
    }
}

/// What verifying the PAC of a service ticket comes to, whose verdict under the
/// current key is `first`: under the keys of the two versions before it, where
/// that finds it modified, the newer first.
pub open spec fn versions_result<
    N: Fn(&String) -> Option<i32>,
    D: Fn(&EncryptionKey, &str, i32) -> Option<EncryptionKey>,
    Z: Fn(&Vec<u8>, &Vec<u32>) -> Result<Vec<u8>, PacFault>,
    B: Fn(&Vec<u8>, u32) -> Result<Option<Vec<u8>>, PacFault>,
    C: Fn(&EncryptionKey, u32, &Vec<u8>, i32, &Vec<u8>) -> CksumOutcome,
>(
    types: Seq<CksumType>,
    pac: Vec<u8>,
    ticket_key: EncryptionKey,
    server: Principal,
    der: Vec<u8>,
    named: N,
    derive: D,
    zeroed: Z,
    buffer: B,
    check: C,
    tgt: Principal,
    kvno: u32,
    first: Result<(), Error>,
    r: Result<(), Error>,
) -> bool {
    exists|a: Option<bool>, b: Option<bool>|
        {
            &&& #[trigger] versions_tried(
                types,
                pac,
                ticket_key,
                server,
                der,
                named,
                derive,
                zeroed,
                buffer,
                check,
                tgt,
                kvno,
                first,
                a,
                b,
            )
            &&& r == spec_verified_pac(kvno, first, seq![a, b])
        }
}

/// What trying the keys of the two versions before the current one gave; they
/// are tried only as far as needed.
pub open spec fn versions_tried<
    N: Fn(&String) -> Option<i32>,
    D: Fn(&EncryptionKey, &str, i32) -> Option<EncryptionKey>,
    Z: Fn(&Vec<u8>, &Vec<u32>) -> Result<Vec<u8>, PacFault>,
    B: Fn(&Vec<u8>, u32) -> Result<Option<Vec<u8>>, PacFault>,
    C: Fn(&EncryptionKey, u32, &Vec<u8>, i32, &Vec<u8>) -> CksumOutcome,
>(
    types: Seq<CksumType>,
    pac: Vec<u8>,
    ticket_key: EncryptionKey,
    server: Principal,
    der: Vec<u8>,
    named: N,
    derive: D,
    zeroed: Z,
    buffer: B,
    check: C,
    tgt: Principal,
    kvno: u32,
    first: Result<(), Error>,
    a: Option<bool>,
    b: Option<bool>,
) -> bool {
    &&& if retryable(first) {
        older_tried(
            types,
            pac,
            ticket_key,
            server,
            der,
            named,
            derive,
            zeroed,
            buffer,
            check,
            tgt,
            kvno - 1,
            a,
        )
    } else {
        a is None
    }
    &&& if a == Some(false) {
        older_tried(
            types,
            pac,
            ticket_key,
            server,
            der,
            named,
            derive,
            zeroed,
            buffer,
            check,
            tgt,
            kvno - 2,
            b,
        )
    } else {
        b is None
    }
}

/// Verifies the PAC of a service ticket over the versions of the KDC's key.
fn try_versions<
    N: Fn(&String) -> Option<i32>,
    D: Fn(&EncryptionKey, &str, i32) -> Option<EncryptionKey>,
    Z: Fn(&Vec<u8>, &Vec<u32>) -> Result<Vec<u8>, PacFault>,
    B: Fn(&Vec<u8>, u32) -> Result<Option<Vec<u8>>, PacFault>,
    C: Fn(&EncryptionKey, u32, &Vec<u8>, i32, &Vec<u8>) -> CksumOutcome,
>(
    types: &[CksumType],
    pac: &Vec<u8>,
    ticket_key: &EncryptionKey,
    server: &Principal,
    der: &Vec<u8>,
    named: &N,
    derive: &D,
    zeroed: &Z,
    buffer: &B,
    check: &C,
    tgt: &Principal,
    kvno: u32,
    first: Result<(), Error>,
) -> (r: Result<(), Error>)
    requires
        forall|x: String| #[trigger] call_requires(*named, (&x,)),
        forall|k: EncryptionKey, l: &str, t: i32| #[trigger] call_requires(*derive, (&k, l, t)),
        forall|p: Vec<u8>, x: Vec<u32>| #[trigger] call_requires(*zeroed, (&p, &x)),
        forall|p: Vec<u8>, k: u32| #[trigger] call_requires(*buffer, (&p, k)),
        forall|k: EncryptionKey, u: u32, x: Vec<u8>, t: i32, m: Vec<u8>| #[trigger]
            call_requires(*check, (&k, u, &x, t, &m)),
    ensures
        versions_result(
            types@,
            *pac,
            *ticket_key,
            *server,
            *der,
            *named,
            *derive,
            *zeroed,
            *buffer,
            *check,
            *tgt,
            kvno,
            first,
            r,
        ),
{
    let a: Option<bool> = if pac_verify_retryable(&first) {
        try_older(
            types,
            pac,
            ticket_key,
            server,
            der,
            named,
            derive,
            zeroed,
            buffer,
            check,
            tgt,
            kvno.saturating_sub(1),
        )
    } else {
        None
    };
    let again: bool = match a {
        Some(ok) => !ok,
        None => false,
    };
    let b: Option<bool> = if again {
        try_older(
            types,
            pac,
            ticket_key,
            server,
            der,
            named,
            derive,
            zeroed,
            buffer,
            check,
            tgt,
            kvno.saturating_sub(2),
        )
    } else {
        None
    };
    assert(versions_tried(
        types@,
        *pac,
        *ticket_key,
        *server,
        *der,
        *named,
        *derive,
        *zeroed,
        *buffer,
        *check,
        *tgt,
        kvno,
        first,
        a,
        b,
    ));
    let older: [Option<bool>; 2] = [a, b];
    assert(older@ =~= seq![a, b]);
    judge_pac_versions(kvno, first, &older)
}

/// What verifying the PAC of a service ticket comes to whose encoding is there.
pub open spec fn service_judged<
    N: Fn(&String) -> Option<i32>,
    D: Fn(&EncryptionKey, &str, i32) -> Option<EncryptionKey>,
    Z: Fn(&Vec<u8>, &Vec<u32>) -> Result<Vec<u8>, PacFault>,
    B: Fn(&Vec<u8>, u32) -> Result<Option<Vec<u8>>, PacFault>,
    C: Fn(&EncryptionKey, u32, &Vec<u8>, i32, &Vec<u8>) -> CksumOutcome,
>(
    types: Seq<CksumType>,
    pac: Vec<u8>,
    ticket_key: EncryptionKey,
    server: Principal,
    der: Vec<u8>,
    named: N,
    derive: D,
    zeroed: Z,
    buffer: B,
    check: C,
    tgt: Principal,
    v: Result<(), Error>,
) -> bool {
    exists|i: int, first: Result<(), Error>|
        {
            &&& is_current(tgt, i)
            &&& #[trigger] entry_tried(
                types,
                pac,
                ticket_key,
                server,
                der,
                named,
                derive,
                zeroed,
                buffer,
                check,
                tgt.keys@[i],
                first,
            )
            &&& versions_result(
                types,
                pac,
                ticket_key,
                server,
                der,
                named,
                derive,
                zeroed,
                buffer,
                check,
                tgt,
                tgt.keys@[i].kvno,
                first,
                v,
            )
        }
}

/// What verifying the PAC of a ticket comes to. The ticket-granting service's own
/// tickets carry a server signature alone; those of other services are verified with
/// the KDC's key too.
pub open spec fn pac_judged<
    E: Fn(&EncTicketPart) -> Result<Vec<u8>, Error>,
    N: Fn(&String) -> Option<i32>,
    D: Fn(&EncryptionKey, &str, i32) -> Option<EncryptionKey>,
    Z: Fn(&Vec<u8>, &Vec<u32>) -> Result<Vec<u8>, PacFault>,
    B: Fn(&Vec<u8>, u32) -> Result<Option<Vec<u8>>, PacFault>,
    C: Fn(&EncryptionKey, u32, &Vec<u8>, i32, &Vec<u8>) -> CksumOutcome,
>(
    types: Seq<CksumType>,
    pac: Vec<u8>,
    part: EncTicketPart,
    ticket_key: EncryptionKey,
    server: Principal,
    local_tgt: Option<&Principal>,
    encode: E,
    named: N,
    derive: D,
    zeroed: Z,
    buffer: B,
    check: C,
    v: Result<(), Error>,
) -> bool {
    if server.name@.is_krbtgt() {
        pac_result(types, pac, ticket_key, None, None, false, zeroed, buffer, check, v)
    } else {
        match local_tgt {
            None => v == Err::<(), Error>(refusal(GENERIC, Status::HeaderPac)),
            Some(t) => if t.keys@.len() == 0 {
                v == Err::<(), Error>(refusal(GENERIC, Status::HeaderPac))
            } else {
                exists|d: Result<Vec<u8>, Error>| #[trigger]
                    call_ensures(encode, (&part,), d) && (match d {
                        Err(e) => v == Err::<(), Error>(e),
                        Ok(der) => service_judged(
                            types,
                            pac,
                            ticket_key,
                            server,
                            der,
                            named,
                            derive,
                            zeroed,
                            buffer,
                            check,
                            *t,
                            v,
                        ),
                    })
            },
        }
    }
}

/// Verifies the PAC of a ticket.
fn judge_pac<
    E: Fn(&EncTicketPart) -> Result<Vec<u8>, Error>,
    N: Fn(&String) -> Option<i32>,
    D: Fn(&EncryptionKey, &str, i32) -> Option<EncryptionKey>,
    Z: Fn(&Vec<u8>, &Vec<u32>) -> Result<Vec<u8>, PacFault>,
    B: Fn(&Vec<u8>, u32) -> Result<Option<Vec<u8>>, PacFault>,
    C: Fn(&EncryptionKey, u32, &Vec<u8>, i32, &Vec<u8>) -> CksumOutcome,
>(
    types: &[CksumType],
    pac: &Vec<u8>,
    part: &EncTicketPart,
    ticket_key: &EncryptionKey,
    server: &Principal,
    local_tgt: Option<&Principal>,
    encode: &E,
    named: &N,
    derive: &D,
    zeroed: &Z,
    buffer: &B,
    check: &C,
) -> (v: Result<(), Error>)
    requires
        forall|x: EncTicketPart| #[trigger] call_requires(*encode, (&x,)),
        forall|x: String| #[trigger] call_requires(*named, (&x,)),
        forall|k: EncryptionKey, l: &str, t: i32| #[trigger] call_requires(*derive, (&k, l, t)),
        forall|p: Vec<u8>, x: Vec<u32>| #[trigger] call_requires(*zeroed, (&p, &x)),
        forall|p: Vec<u8>, k: u32| #[trigger] call_requires(*buffer, (&p, k)),
        forall|k: EncryptionKey, u: u32, x: Vec<u8>, t: i32, m: Vec<u8>| #[trigger]
            call_requires(*check, (&k, u, &x, t, &m)),
    ensures
        pac_judged(
            types@,
            *pac,
            *part,
            *ticket_key,
            *server,
            local_tgt,
            *encode,
            *named,
            *derive,
            *zeroed,
            *buffer,
            *check,
            v,
        ),
{
    if server.name.is_krbtgt() {
        return verify_pac_signatures(
            types,
            pac,
            ticket_key,
            &None,
            None,
            false,
            zeroed,
            buffer,
            check,
        );
    }
    let t = match local_tgt {
        None => {
            return Err(proto(GENERIC, Status::HeaderPac));
        },
        Some(t) => t,
    };
    if t.keys.len() == 0 {
        return Err(proto(GENERIC, Status::HeaderPac));
    }
    let d = encode(part);
    assert(call_ensures(*encode, (part,), d));
    let der = match d {
        Err(e) => {
            return Err(e);
        },
        Ok(x) => x,
    };
    let newest: u32 = newest_kvno(t.keys.as_slice());
    match first_version(t.keys.as_slice(), newest) {
        None => {
            proof {
                lemma_newest_is_there(t.keys@);
            }
            Err(proto(GENERIC, Status::HeaderPac))
        },
        Some(i) => {
            let first = try_entry(
                types,
                pac,
                ticket_key,
                server,
                &der,
                named,
                derive,
                zeroed,
                buffer,
                check,
                &t.keys[i],
            );
            let ghost verdict = first;
            let v = try_versions(
                types,
                pac,
                ticket_key,
                server,
                &der,
                named,
                derive,
                zeroed,
                buffer,
                check,
                t,
                t.keys[i].kvno,
                first,
            );
            proof {
                assert(is_current(*t, i as int));
                assert(entry_tried(
                    types@,
                    *pac,
                    *ticket_key,
                    *server,
                    der,
                    *named,
                    *derive,
                    *zeroed,
                    *buffer,
                    *check,
                    t.keys@[i as int],
                    verdict,
                ));
                assert(service_judged(
                    types@,
                    *pac,
                    *ticket_key,
                    *server,
                    der,
                    *named,
                    *derive,
                    *zeroed,
                    *buffer,
                    *check,
                    *t,
                    v,
                ));
            }
            v
        },
    }
}

/// What getting the verified PAC of a ticket comes to: `extract` takes it out of the
/// ticket.
pub open spec fn verified_pac_result<
    X: Fn(&EncTicketPart) -> Option<Vec<u8>>,
    E: Fn(&EncTicketPart) -> Result<Vec<u8>, Error>,
    N: Fn(&String) -> Option<i32>,
    D: Fn(&EncryptionKey, &str, i32) -> Option<EncryptionKey>,
    Z: Fn(&Vec<u8>, &Vec<u32>) -> Result<Vec<u8>, PacFault>,
    B: Fn(&Vec<u8>, u32) -> Result<Option<Vec<u8>>, PacFault>,
    C: Fn(&EncryptionKey, u32, &Vec<u8>, i32, &Vec<u8>) -> CksumOutcome,
>(
    types: Seq<CksumType>,
    part: EncTicketPart,
    ticket_key: EncryptionKey,
    server: Principal,
    local_tgt: Option<&Principal>,
    extract: X,
    encode: E,
    named: N,
    derive: D,
    zeroed: Z,
    buffer: B,
    check: C,
    r: Result<Option<Vec<u8>>, Error>,
) -> bool {
    exists|p: Option<Vec<u8>>| #[trigger]
        call_ensures(extract, (&part,), p) && (match p {
            None => r matches Ok(o) && o is None,
            Some(pac) => exists|v: Result<(), Error>|
                {
                    &&& #[trigger] pac_judged(
                        types,
                        pac,
                        part,
                        ticket_key,
                        server,
                        local_tgt,
                        encode,
                        named,
                        derive,
                        zeroed,
                        buffer,
                        check,
                        v,
                    )
                    &&& match v {
                        Err(e) => r matches Err(y) && y == e,
                        Ok(()) => r matches Ok(Some(y)) && y == pac,
                    }
                },
        })
}

/// Gets the verified PAC of a ticket that was opened with `ticket_key`, a key of
/// `server`, where it has one. `extract` takes the PAC out of the ticket, `encode`
/// encodes the ticket with a blank PAC, `named` reads the name of a key type and
/// `derive` derives a key of another type; `zeroed` gives the octets of a PAC with some
/// signatures blank, `buffer` its buffer of a kind, and `check` verifies a checksum
/// under a key and a usage.
pub fn get_verified_pac<
    X: Fn(&EncTicketPart) -> Option<Vec<u8>>,
    E: Fn(&EncTicketPart) -> Result<Vec<u8>, Error>,
    N: Fn(&String) -> Option<i32>,
    D: Fn(&EncryptionKey, &str, i32) -> Option<EncryptionKey>,
    Z: Fn(&Vec<u8>, &Vec<u32>) -> Result<Vec<u8>, PacFault>,
    B: Fn(&Vec<u8>, u32) -> Result<Option<Vec<u8>>, PacFault>,
    C: Fn(&EncryptionKey, u32, &Vec<u8>, i32, &Vec<u8>) -> CksumOutcome,
>(
    types: &[CksumType],
    part: &EncTicketPart,
    ticket_key: &EncryptionKey,
    server: &Principal,
    local_tgt: Option<&Principal>,
    extract: &X,
    encode: &E,
    named: &N,
    derive: &D,
    zeroed: &Z,
    buffer: &B,
    check: &C,
) -> (r: Result<Option<Vec<u8>>, Error>)
    requires
        forall|x: EncTicketPart| #[trigger] call_requires(*extract, (&x,)),
        forall|x: EncTicketPart| #[trigger] call_requires(*encode, (&x,)),
        forall|x: String| #[trigger] call_requires(*named, (&x,)),
        forall|k: EncryptionKey, l: &str, t: i32| #[trigger] call_requires(*derive, (&k, l, t)),
        forall|p: Vec<u8>, x: Vec<u32>| #[trigger] call_requires(*zeroed, (&p, &x)),
        forall|p: Vec<u8>, k: u32| #[trigger] call_requires(*buffer, (&p, k)),
        forall|k: EncryptionKey, u: u32, x: Vec<u8>, t: i32, m: Vec<u8>| #[trigger]
            call_requires(*check, (&k, u, &x, t, &m)),
    ensures
        verified_pac_result(
            types@,
            *part,
            *ticket_key,
            *server,
            local_tgt,
            *extract,
            *encode,
            *named,
            *derive,
            *zeroed,
            *buffer,
            *check,
            r,
        ),
{
    let p = extract(part);
    let ghost taken = p;
    assert(call_ensures(*extract, (part,), taken));
    match p {
        None => Ok(None),
        Some(pac) => {
            let v = judge_pac(
                types,
                &pac,
                part,
                ticket_key,
                server,
                local_tgt,
                encode,
                named,
                derive,
                zeroed,
                buffer,
                check,
            );
            assert(pac_judged(
                types@,
                pac,
                *part,
                *ticket_key,
                *server,
                local_tgt,
                *encode,
                *named,
                *derive,
                *zeroed,
                *buffer,
                *check,
                v,
            ));
            match v {
                Err(e) => Err(e),
                Ok(()) => Ok(Some(pac)),
            }
        },
    }
}

/// A PAC that was modified is told so, and every other fault is a general one.
pub proof fn law_modified_pac_is_told(f: PacFault)
    ensures
        fault_refusal(f) == refusal(MODIFIED, Status::HeaderPac) <==> f is Integrity,
        !(f is Integrity) ==> fault_refusal(f) == refusal(GENERIC, Status::HeaderPac),
{
}

/// The key of a version is looked for among the current keys before the older
/// ones, and the current key is of a version that no other key exceeds.
pub proof fn law_current_keys_come_first(p: Principal, kvno: u32, k: KeyEntry, i: int, j: int)
    requires
        0 <= j < p.keys@.len(),
    ensures
        p.keys@[j].kvno == kvno && version_key(p, kvno, Some(k)) ==> k.kvno == kvno
            && p.keys@.contains(k),
        p.keys@[j].kvno == kvno ==> !version_key(p, kvno, None),
        is_current(p, i) ==> 0 <= i < p.keys@.len() && p.keys@[j].kvno <= p.keys@[i].kvno,
{
    crate::store::lemma_max_kvno(p.keys@);
    if p.keys@[j].kvno == kvno {
        assert(!none_of_version(p.keys@, kvno));
        if version_key(p, kvno, Some(k)) {
            let n = choose|n: int| #[trigger]
                first_of_version(p.keys@, kvno, n) && k == p.keys@[n];
            assert(p.keys@[n] == k);
        }
    }
}

/// The ticket-granting service's own tickets are verified by their server
/// signature alone, and a service ticket only where the local ticket-granting
/// service has a key.
pub proof fn law_service_pac_needs_the_kdc<
    E: Fn(&EncTicketPart) -> Result<Vec<u8>, Error>,
    N: Fn(&String) -> Option<i32>,
    D: Fn(&EncryptionKey, &str, i32) -> Option<EncryptionKey>,
    Z: Fn(&Vec<u8>, &Vec<u32>) -> Result<Vec<u8>, PacFault>,
    B: Fn(&Vec<u8>, u32) -> Result<Option<Vec<u8>>, PacFault>,
    C: Fn(&EncryptionKey, u32, &Vec<u8>, i32, &Vec<u8>) -> CksumOutcome,
>(
    types: Seq<CksumType>,
    pac: Vec<u8>,
    part: EncTicketPart,
    ticket_key: EncryptionKey,
    server: Principal,
    local_tgt: Option<&Principal>,
    encode: E,
    named: N,
    derive: D,
    zeroed: Z,
    buffer: B,
    check: C,
    v: Result<(), Error>,
)
    requires
        pac_judged(
            types,
            pac,
            part,
            ticket_key,
            server,
            local_tgt,
            encode,
            named,
            derive,
            zeroed,
            buffer,
            check,
            v,
        ),
    ensures
        server.name@.components.len() == 2 && server.name@.components[0] == "krbtgt"@
            ==> pac_result(
            types,
            pac,
            ticket_key,
            None,
            None,
            false,
            zeroed,
            buffer,
            check,
            v,
        ),
        !(server.name@.components.len() == 2 && server.name@.components[0] == "krbtgt"@) && (
        local_tgt matches Some(t) ==> t.keys@.len() == 0) ==> v == Err::<(), Error>(
            refusal(GENERIC, Status::HeaderPac),
        ),
{
}

/// A PAC without a whole server signature has nothing that the KDC could have
/// signed, and is refused.
pub proof fn law_signature_needs_the_servers<
    B: Fn(&Vec<u8>, u32) -> Result<Option<Vec<u8>>, PacFault>,
    C: Fn(&EncryptionKey, u32, &Vec<u8>, i32, &Vec<u8>) -> CksumOutcome,
>(
    types: Seq<CksumType>,
    pac: Vec<u8>,
    kdc: EncryptionKey,
    buffer: B,
    check: C,
    r: Result<(), Error>,
)
    requires
        privsvr_result(types, pac, kdc, buffer, check, r),
        forall|b: Result<Option<Vec<u8>>, PacFault>| #[trigger]
            call_ensures(buffer, (&pac, PAC_SERVER_CHECKSUM), b) ==> b is Ok && (b->Ok_0 is Some
                ==> b->Ok_0->0@.len() < 4),
    ensures
        r == Err::<(), Error>(refusal(GENERIC, Status::HeaderPac)),
{
}

/// No key of a version below the first is tried.
pub proof fn law_no_version_before_the_first<
    N: Fn(&String) -> Option<i32>,
    D: Fn(&EncryptionKey, &str, i32) -> Option<EncryptionKey>,
    Z: Fn(&Vec<u8>, &Vec<u32>) -> Result<Vec<u8>, PacFault>,
    B: Fn(&Vec<u8>, u32) -> Result<Option<Vec<u8>>, PacFault>,
    C: Fn(&EncryptionKey, u32, &Vec<u8>, i32, &Vec<u8>) -> CksumOutcome,
>(
    types: Seq<CksumType>,
    pac: Vec<u8>,
    ticket_key: EncryptionKey,
    server: Principal,
    der: Vec<u8>,
    named: N,
    derive: D,
    zeroed: Z,
    buffer: B,
    check: C,
    tgt: Principal,
    kvno: int,
    o: Option<bool>,
)
    requires
        older_tried(
            types,
            pac,
            ticket_key,
            server,
            der,
            named,
            derive,
            zeroed,
            buffer,
            check,
            tgt,
            kvno,
            o,
        ),
    ensures
        kvno <= 0 ==> o is None,
        o is Some ==> kvno > 0 && exists|e: KeyEntry| version_key(tgt, kvno as u32, Some(e)),
{
}

} // verus!
