//! PAC verification, and requests on behalf of other users.

use crate::bytes::{copy_range, from_le32, get_le32, le32};
use crate::error::{
    proto, refusal, refuses, Error, Status, BADOPTION, C_PRINCIPAL_UNKNOWN, GENERIC, INAPP_CKSUM,
    MODIFIED,
    POLICY, SERVER_NOMATCH, SUMTYPE_NOSUPP, TGT_REVOKED,
};
use crate::flags::{
    Flags, ENC_TKT_IN_SKEY, FORWARDABLE, FORWARDED, PROXY, RENEW, VALIDATE,
};
use crate::issue::tgs_policy::{entries_match, same_entry, S4u2Self, SecondTicket};
use crate::msg::{
    find_pa, has_pa, key_octets, AuthDatum, EncTicketPart, EncryptionKey, KdcReqBody, PaData,
    AD_IF_RELEVANT, AD_WIN2K_PAC, PA_FOR_USER, PA_FOR_X509_USER,
};
use crate::name::{NameView, PrincipalName, NT_MS_PRINCIPAL, NT_UNKNOWN};
use crate::pac::{
    carries_realm, pac_client_info_eq, pac_princ_with_realm, signature_data, spec_deleg_pac,
    str_view, verify_deleg_pac,
    DelegationInfo, PacFacts, PAC_SERVER_CHECKSUM,
};
use crate::store::{
    contains_string, find_attr, has_string, is_first_attr, Principal, KDB_REQUIRES_PWCHANGE,
    DES3_CBC_SHA1, RC4_HMAC,
};
use crate::text::{join, last_position, split, str_eq};
use vstd::prelude::*;
use vstd::string::*;

pub mod logon;
pub mod s4u;
pub mod verify;

verus! {

/// A checksum type, as the crypto layer describes it.
#[derive(Clone, Copy, Debug, PartialEq, Eq, Structural)]
pub struct CksumType {
    /// Number.
    pub cksumtype: i32,
    /// The checksum is keyed.
    pub keyed: bool,
    /// Length of the checksum.
    pub size: usize,
}

/// The place of the first description of `ty`, or the length where there is
/// none.
pub open spec fn cksum_position(types: Seq<CksumType>, ty: i32) -> int
    decreases types.len(),
{
    if types.len() == 0 {
        0
    } else if types[0].cksumtype == ty {
        0
    } else {
        1 + cksum_position(types.drop_first(), ty)
    }
}

/// The description of `ty`, where the crypto layer has one.
pub open spec fn cksum_form(types: Seq<CksumType>, ty: i32) -> Option<CksumType> {
    let i = cksum_position(types, ty);
    if 0 <= i < types.len() {
        Some(types[i])
    } else {
        None
    }
}

/// The description of `ty`, where the crypto layer has one.
pub fn find_cksum(types: &[CksumType], ty: i32) -> (r: Option<CksumType>)
    ensures
        r == cksum_form(types@, ty),
{
    let mut i: usize = 0;
    proof {
        assert(types@.skip(0) =~= types@);
    }
    while i < types.len()
        invariant
            i <= types.len(),
            cksum_position(types@, ty) == i + cksum_position(types@.skip(i as int), ty),
        decreases types.len() - i,
    {
        proof {
            assert(types@.skip(i as int).drop_first() =~= types@.skip(i + 1));
        }
        if types[i].cksumtype == ty {
            return Some(types[i]);
        }
        i = i + 1;
    }
    None
}

/// A keyed checksum type that the crypto layer knows.
pub open spec fn keyed(types: Seq<CksumType>, ty: i32) -> bool {
    cksum_form(types, ty) matches Some(f) && f.keyed
}

/// Whether a checksum type is keyed.
pub fn cksumtype_is_keyed(types: &[CksumType], ty: i32) -> (r: bool)
    ensures
        r == keyed(types@, ty),
{
    match find_cksum(types, ty) {
        Some(f) => f.keyed,
        None => false,
    }
}

/// The signature type of a PAC that no server signature may have.
pub const CKSUMTYPE_SHA1: i32 = 14;

/// What a signature buffer holds.
#[derive(Clone, Debug, PartialEq, Eq)]
pub struct PacSignature {
    /// Checksum type.
    pub cksumtype: i32,
    /// Checksum.
    pub mac: Vec<u8>,
}

/// The refusal of a signature buffer, where it is refused.
pub open spec fn signature_refusal(
    types: Seq<CksumType>,
    buf: Option<Seq<u8>>,
    buffer_type: u32,
) -> Option<Error> {
    match buf {
        None => Some(refusal(GENERIC, Status::HeaderPac)),
        Some(b) => if b.len() < 4 {
            Some(refusal(GENERIC, Status::HeaderPac))
        } else {
            let ty = from_le32(b, 0) as i32;
            if buffer_type == PAC_SERVER_CHECKSUM && ty == CKSUMTYPE_SHA1 {
                Some(refusal(SUMTYPE_NOSUPP, Status::HeaderPac))
            } else if !keyed(types, ty) || cksum_form(types, ty)->0.size > b.len() - 4 {
                Some(refusal(GENERIC, Status::HeaderPac))
            } else {
                None
            }
        },
    }
}

pub open spec fn slice_view(b: Option<&[u8]>) -> Option<Seq<u8>> {
    match b {
        Some(x) => Some(x@),
        None => None,
    }
}

/// Reads a signature buffer: the type in front, then a keyed checksum of the
/// length that its type has. Octets behind it do not count.
pub fn read_pac_signature(types: &[CksumType], buf: Option<&[u8]>, buffer_type: u32) -> (r: Result<
    PacSignature,
    Error,
>)
    ensures
        r is Err <==> signature_refusal(types@, slice_view(buf), buffer_type) is Some,
        r matches Err(e) ==> Some(e) == signature_refusal(types@, slice_view(buf), buffer_type),
        r matches Ok(sig) ==> {
            let b = buf->0@;
            &&& sig.cksumtype == from_le32(b, 0) as i32
            &&& sig.mac@ == b.subrange(4, 4 + cksum_form(types@, sig.cksumtype)->0.size)
        },
{
    let b = match buf {
        Some(b) => b,
        None => {
            return Err(proto(GENERIC, Status::HeaderPac));
        },
    };
    if b.len() < 4 {
        return Err(proto(GENERIC, Status::HeaderPac));
    }
    let cksumtype: i32 = get_le32(b, 0) as i32;
    if buffer_type == PAC_SERVER_CHECKSUM && cksumtype == CKSUMTYPE_SHA1 {
        return Err(proto(SUMTYPE_NOSUPP, Status::HeaderPac));
    }
    match find_cksum(types, cksumtype) {
        Some(f) => {
            if !f.keyed || f.size > b.len() - 4 {
                return Err(proto(GENERIC, Status::HeaderPac));
            }
            Ok(PacSignature { cksumtype, mac: copy_range(b, 4, 4 + f.size) })
        },
        None => Err(proto(GENERIC, Status::HeaderPac)),
    }
}

/// A signature that was written, keyed and as long as its type says, is
/// accepted, and its type and its checksum are read back; a server signature
/// of the refused type is the exception.
#[verifier::spinoff_prover]
pub proof fn law_signature_round_trip(
    types: Seq<CksumType>,
    cksumtype: i32,
    mac: Seq<u8>,
    buffer_type: u32,
)
    requires
        cksum_form(types, cksumtype) matches Some(f) && f.keyed && f.size == mac.len(),
        buffer_type == PAC_SERVER_CHECKSUM ==> cksumtype != CKSUMTYPE_SHA1,
    ensures
        signature_refusal(types, Some(signature_data(cksumtype, mac)), buffer_type) is None,
        from_le32(signature_data(cksumtype, mac), 0) as i32 == cksumtype,
        signature_data(cksumtype, mac).subrange(4, 4 + mac.len() as int) == mac,
{
    let b = signature_data(cksumtype, mac);
    crate::bytes::lemma_le32_round_trip(cksumtype as u32);
    let w = le32(cksumtype as u32);
    assert(b[0] == w[0] && b[1] == w[1] && b[2] == w[2] && b[3] == w[3]);
    assert(from_le32(b, 0) == from_le32(w, 0));
    assert((cksumtype as u32) as i32 == cksumtype) by (bit_vector);
    assert(b.subrange(4, 4 + mac.len() as int) =~= mac);
}

/// How a checksum fared.
#[derive(Clone, Copy, Debug, PartialEq, Eq, Structural)]
pub enum CksumOutcome {
    /// It is right.
    Good,
    /// It is wrong.
    Integrity,
    /// It is of an inappropriate kind.
    Inappropriate,
    /// It could not be checked.
    Failed,
}

/// What a PAC signature's outcome means.
pub open spec fn spec_pac_signature_outcome(o: CksumOutcome) -> Result<(), Error> {
    match o {
        CksumOutcome::Good => Ok(()),
        CksumOutcome::Integrity => Err(refusal(MODIFIED, Status::HeaderPac)),
        _ => Err(refusal(GENERIC, Status::HeaderPac)),
    }
}

/// What a PAC signature's outcome means.
pub fn pac_signature_outcome(o: CksumOutcome) -> (r: Result<(), Error>)
    ensures
        r == spec_pac_signature_outcome(o),
{
    match o {
        CksumOutcome::Good => Ok(()),
        CksumOutcome::Integrity => Err(proto(MODIFIED, Status::HeaderPac)),
        _ => Err(proto(GENERIC, Status::HeaderPac)),
    }
}

/// Ticket and full signature belong to service tickets, never to TGTs or
/// tickets for `kadmin/changepw`.
pub open spec fn has_ticket_signature(sname: NameView) -> bool {
    !sname.is_krbtgt() && !(sname.components =~= seq!["kadmin"@, "changepw"@])
}

/// Whether a ticket for `sname` carries a ticket signature.
pub fn should_have_ticket_signature(sname: &PrincipalName) -> (r: bool)
    ensures
        r == has_ticket_signature(sname@),
{
    let changepw: bool = sname.name_string.len() == 2 && str_eq(
        sname.name_string[0].as_str(),
        "kadmin",
    ) && str_eq(sname.name_string[1].as_str(), "changepw");
    !(sname.is_krbtgt() || changepw)
}

/// A failure that a key of an older version may mend.
pub open spec fn retryable(r: Result<(), Error>) -> bool {
    r matches Err(Error::Protocol { code, .. }) && code == MODIFIED
}

/// Whether a key of an older version may mend a failure.
pub fn pac_verify_retryable(r: &Result<(), Error>) -> (b: bool)
    ensures
        b == retryable(*r),
{
    match r {
        Err(Error::Protocol { code, .. }) => *code == MODIFIED,
        _ => false,
    }
}

/// The verdict on the PAC of a service ticket: with the current key, or
/// where that finds it modified with the two versions before it, the newer
/// first. `older[k]` is the outcome with the version `k + 1` before the
/// current one, `None` where there is no such key.
pub open spec fn spec_verified_pac(
    kvno: u32,
    first: Result<(), Error>,
    older: Seq<Option<bool>>,
) -> Result<(), Error> {
    if !retryable(first) {
        first
    } else if kvno > 1 && older.len() > 0 && older[0] == Some(true) {
        Ok(())
    } else if kvno > 2 && older.len() > 1 && older[0] == Some(false) && older[1] == Some(true) {
        Ok(())
    } else {
        Err(refusal(MODIFIED, Status::HeaderPac))
    }
}

/// The verdict on the PAC of a service ticket, over the versions of the KDC
/// key.
pub fn judge_pac_versions(kvno: u32, first: Result<(), Error>, older: &[Option<bool>]) -> (r:
    Result<(), Error>)
    ensures
        r == spec_verified_pac(kvno, first, older@),
{
    if !pac_verify_retryable(&first) {
        return first;
    }
    let mut v: u32 = kvno.saturating_sub(1);
    let mut k: usize = 0;
    while k < 2 && v > 0
        invariant
            k <= 2,
            v == kvno.saturating_sub((k + 1) as u32),
            forall|j: int| 0 <= j < k ==> j < older@.len() && older@[j] == Some(false),
            retryable(first),
        decreases 2 - k,
    {
        if k >= older.len() {
            return Err(proto(MODIFIED, Status::HeaderPac));
        }
        match older[k] {
            None => {
                return Err(proto(MODIFIED, Status::HeaderPac));
            },
            Some(good) => {
                if good {
                    proof {
                        if k == 1 {
                            assert(older@[0] == Some(false));
                        }
                    }
                    return Ok(());
                }
            },
        }
        v = v.saturating_sub(1);
        k = k + 1;
    }
    Err(proto(MODIFIED, Status::HeaderPac))
}

/// A ticket's PAC is for the ticket's client, or vouches for a delegation
/// where the request goes on to another realm. A ticket without PAC passes.
pub open spec fn spec_normal_tgs_pac(
    tkt: EncTicketPart,
    client: Seq<char>,
    pac: Option<Result<PacFacts, Error>>,
    server: Principal,
    is_crossrealm: bool,
) -> Result<(), Error> {
    match pac {
        None => Ok(()),
        Some(Err(e)) => Err(e),
        Some(Ok(p)) => if p.names_client(tkt.authtime, tkt.cname@.joined()) {
            Ok(())
        } else if is_crossrealm && server.name@.is_cross_tgs(server.realm@) && spec_deleg_pac(
            p,
            tkt.authtime,
            client,
            None,
        ) {
            Ok(())
        } else {
            Err(refusal(BADOPTION, Status::HeaderPac))
        },
    }
}

/// Judges the header ticket's PAC; `client` is the ticket's client, name
/// with realm.
pub fn check_normal_tgs_pac(
    enc_tkt: &EncTicketPart,
    client: &str,
    pac: Option<Result<PacFacts, Error>>,
    server: &Principal,
    is_crossrealm: bool,
) -> (r: Result<(), Error>)
    ensures
        r == spec_normal_tgs_pac(*enc_tkt, client@, pac, *server, is_crossrealm),
{
    let p = match pac {
        None => {
            return Ok(());
        },
        Some(Err(e)) => {
            return Err(e);
        },
        Some(Ok(p)) => p,
    };
    let name = enc_tkt.cname.components_joined();
    if pac_client_info_eq(&p, enc_tkt.authtime, name.as_str(), None) {
        return Ok(());
    }
    if is_crossrealm && server.name.is_cross_tgs_principal(server.realm.as_str())
        && verify_deleg_pac(&p, enc_tkt.authtime, client, None) {
        return Ok(());
    }
    Err(proto(BADOPTION, Status::HeaderPac))
}

/// A security identifier.
#[derive(Clone, Debug, PartialEq, Eq)]
pub struct Sid {
    /// Its own octets.
    pub octets: Vec<u8>,
    /// It lies in the local domain.
    pub local: bool,
}

/// The identifiers in the logon information of a PAC.
#[derive(Clone, Debug, PartialEq, Eq)]
pub struct LogonSids {
    /// The base domain.
    pub domain: Sid,
    /// Extra identifiers.
    pub extra: Vec<Sid>,
    /// Resource group domain.
    pub resource_domain: Option<Sid>,
    /// Resource groups.
    pub resource_groups: Vec<u32>,
}

/// The identifiers outside the local domain, in order.
pub open spec fn foreign(sids: Seq<Sid>) -> Seq<Sid> {
    sids.filter(|s: Sid| !s.local)
}

fn retain_foreign(sids: &mut Vec<Sid>)
    ensures
        final(sids)@ == foreign(old(sids)@),
{
    let ghost orig = sids@;
    let ghost keep = |s: Sid| !s.local;
    let ghost mut j: int = 0;
    let mut i: usize = 0;
    proof {
        assert(orig.take(0).filter(keep) =~= Seq::<Sid>::empty()) by {
            reveal(Seq::filter);
        }
        assert(orig.skip(0) =~= orig);
    }
    while i < sids.len()
        invariant
            i <= sids.len(),
            0 <= j <= orig.len(),
            keep == (|s: Sid| !s.local),
            sids@.take(i as int) == orig.take(j).filter(keep),
            sids@.skip(i as int) == orig.skip(j),
        decreases sids.len() - i,
    {
        let ghost before = sids@;
        proof {
            assert(before.skip(i as int).len() == orig.skip(j).len());
            assert(before[i as int] == before.skip(i as int)[0]);
            assert(orig[j] == orig.skip(j)[0]);
            reveal(Seq::filter);
            assert(orig.take(j + 1).drop_last() =~= orig.take(j));
            assert(orig.take(j + 1).last() == orig[j]);
        }
        if sids[i].local {
            let _ = sids.remove(i);
            proof {
                assert(sids@.take(i as int) =~= before.take(i as int));
                assert(sids@.skip(i as int) =~= before.skip(i as int).drop_first());
                assert(orig.skip(j + 1) =~= orig.skip(j).drop_first());
            }
        } else {
            i = i + 1;
            proof {
                assert(before.take(i as int) =~= before.take(i - 1).push(before[i - 1]));
                assert(before.skip(i as int) =~= before.skip(i - 1).drop_first());
                assert(orig.skip(j + 1) =~= orig.skip(j).drop_first());
            }
        }
        proof {
            j = j + 1;
        }
    }
    proof {
        assert(sids@.skip(i as int).len() == 0);
        assert(orig.skip(j).len() == 0);
        assert(orig.take(j) =~= orig);
        assert(sids@.take(i as int) =~= sids@);
    }
}

/// `r` is what a trusted realm may assert of these identifiers.
pub open spec fn logon_filtered(logon: LogonSids, r: Result<LogonSids, Error>) -> bool {
    if logon.domain.local {
        r == Err::<LogonSids, Error>(refusal(POLICY, Status::InvalidLineage))
    } else {
        r matches Ok(l) && {
            &&& l.domain == logon.domain
            &&& l.extra@ == foreign(logon.extra@)
            &&& if logon.resource_domain matches Some(d) && d.local {
                l.resource_domain is None && l.resource_groups@.len() == 0
            } else {
                l.resource_domain == logon.resource_domain && l.resource_groups
                    == logon.resource_groups
            }
        }
    }
}

/// A trusted realm asserts its own identifiers only: an identity of the
/// local domain is refused, and every other identifier of the local domain
/// is taken out, with the resource groups that hang on one.
pub fn filter_cross_realm_logon(logon: LogonSids) -> (r: Result<LogonSids, Error>)
    ensures
        logon_filtered(logon, r),
{
    if logon.domain.local {
        return Err(proto(POLICY, Status::InvalidLineage));
    }
    let mut out = logon;
    retain_foreign(&mut out.extra);
    let drop: bool = match &out.resource_domain {
        Some(d) => d.local,
        None => false,
    };
    if drop {
        out.resource_domain = None;
        out.resource_groups = Vec::new();
    }
    Ok(out)
}

/// No identifier of the local domain is left in what a trusted realm
/// asserts.
pub proof fn law_no_local_sid_left(extra: Seq<Sid>, i: int)
    requires
        0 <= i < foreign(extra).len(),
    ensures
        !foreign(extra)[i].local,
{
    extra.lemma_filter_pred(|s: Sid| !s.local, i);
}

/// Which datum names the user: the certificate form wins over the name form.
#[derive(Clone, Copy, Debug, PartialEq, Eq, Structural)]
pub enum S4uPadata {
    /// The request is for its own client.
    Absent,
    /// The certificate form, at this place.
    X509(usize),
    /// The name form, at this place.
    ForUser(usize),
}

/// Finds the datum that names the user.
pub fn find_s4u_padata(pas: &[PaData]) -> (r: S4uPadata)
    ensures
        match r {
            S4uPadata::X509(i) => has_pa(pas@, PA_FOR_X509_USER) && i < pas.len() && i
                == crate::msg::pa_position(pas@, PA_FOR_X509_USER),
            S4uPadata::ForUser(i) => !has_pa(pas@, PA_FOR_X509_USER) && has_pa(pas@, PA_FOR_USER)
                && i < pas.len() && i == crate::msg::pa_position(pas@, PA_FOR_USER),
            S4uPadata::Absent => !has_pa(pas@, PA_FOR_X509_USER) && !has_pa(pas@, PA_FOR_USER),
        },
{
    if let Some(i) = find_pa(pas, PA_FOR_X509_USER) {
        return S4uPadata::X509(i);
    }
    match find_pa(pas, PA_FOR_USER) {
        Some(i) => S4uPadata::ForUser(i),
        None => S4uPadata::Absent,
    }
}

/// What the outcome of an S4U checksum means.
pub open spec fn spec_s4u_cksum(o: CksumOutcome) -> Result<(), Error> {
    match o {
        CksumOutcome::Good => Ok(()),
        CksumOutcome::Inappropriate => Err(
            refusal(INAPP_CKSUM, Status::InvalidS4u2selfChecksum),
        ),
        CksumOutcome::Integrity => Err(refusal(MODIFIED, Status::InvalidS4u2selfChecksum)),
        CksumOutcome::Failed => Err(refusal(GENERIC, Status::InvalidS4u2selfChecksum)),
    }
}

/// What the outcome of an S4U checksum means.
pub fn map_s4u_cksum(o: CksumOutcome) -> (r: Result<(), Error>)
    ensures
        r == spec_s4u_cksum(o),
{
    match o {
        CksumOutcome::Good => Ok(()),
        CksumOutcome::Inappropriate => Err(proto(INAPP_CKSUM, Status::InvalidS4u2selfChecksum)),
        CksumOutcome::Integrity => Err(proto(MODIFIED, Status::InvalidS4u2selfChecksum)),
        CksumOutcome::Failed => Err(proto(GENERIC, Status::InvalidS4u2selfChecksum)),
    }
}

/// Judges the checksum of the name form: it must be keyed, and right.
pub fn verify_for_user_checksum(types: &[CksumType], cksumtype: i32, outcome: CksumOutcome) -> (r:
    Result<(), Error>)
    ensures
        r == (if !keyed(types@, cksumtype) {
            Err(refusal(INAPP_CKSUM, Status::InvalidS4u2selfChecksum))
        } else {
            spec_s4u_cksum(outcome)
        }),
{
    if !cksumtype_is_keyed(types, cksumtype) {
        return Err(proto(INAPP_CKSUM, Status::InvalidS4u2selfChecksum));
    }
    map_s4u_cksum(outcome)
}

/// An encryption type newer than des3 and rc4.
pub open spec fn requires_info2(etype: i32) -> bool {
    etype != DES3_CBC_SHA1 && etype != RC4_HMAC
}

/// Whether an encryption type is newer than des3 and rc4.
pub fn etype_requires_info2(etype: i32) -> (r: bool)
    ensures
        r == requires_info2(etype),
{
    etype != DES3_CBC_SHA1 && etype != RC4_HMAC
}

/// The refusal of the user of a request on behalf of another user, where it
/// is refused.
pub open spec fn s4u_user_refusal(
    store_realm: Seq<char>,
    realm: Seq<char>,
    has_cert: bool,
    fetched: Result<Option<Principal>, Error>,
) -> Option<Error> {
    if realm != store_realm {
        None
    } else if has_cert {
        Some(refusal(GENERIC, Status::LookingUpS4u2selfPrincipal))
    } else {
        match fetched {
            Err(e) => Some(e),
            Ok(None) => Some(refusal(C_PRINCIPAL_UNKNOWN, Status::UnknownS4u2selfPrincipal)),
            Ok(Some(_)) => None,
        }
    }
}

/// The entry `p` with no password expiry and no duty to change the password.
pub open spec fn counted_user(p: Principal) -> Principal {
    Principal { pw_expire: 0, attributes: p.attributes & !KDB_REQUIRES_PWCHANGE, ..p }
}

/// Looks up the user of a request on behalf of another user. A user of the
/// local realm is fetched, is never given by certificate, and counts with no
/// password expiry and no duty to change the password.
pub fn s4u_from_userid(
    store_realm: &str,
    user: Option<PrincipalName>,
    realm: String,
    has_cert: bool,
    fetched: Result<Option<Principal>, Error>,
) -> (r: Result<S4u2Self, Error>)
    ensures
        r is Err <==> s4u_user_refusal(store_realm@, realm@, has_cert, fetched) is Some,
        r matches Err(e) ==> Some(e) == s4u_user_refusal(store_realm@, realm@, has_cert, fetched),
        r matches Ok(s) ==> {
            &&& s.realm == realm
            &&& (user matches Some(n) ==> s.user == n)
            &&& (user is None ==> s.user@.name_type == NT_UNKNOWN && s.user@.components.len() == 0)
            &&& (realm@ != store_realm@ ==> s.local is None)
            &&& (realm@ == store_realm@ ==> s.local == Some(counted_user(fetched->Ok_0->0)))
            &&& s.x509 is None
        },
{
    let user = match user {
        Some(n) => n,
        None => PrincipalName { name_type: NT_UNKNOWN, name_string: Vec::new() },
    };
    if !str_eq(realm.as_str(), store_realm) {
        return Ok(S4u2Self { user, realm, local: None, x509: None });
    }
    if has_cert {
        return Err(proto(GENERIC, Status::LookingUpS4u2selfPrincipal));
    }
    match fetched {
        Err(e) => Err(e),
        Ok(None) => Err(proto(C_PRINCIPAL_UNKNOWN, Status::UnknownS4u2selfPrincipal)),
        Ok(Some(p)) => {
            let mut q = p;
            q.pw_expire = 0;
            q.attributes = q.attributes & !KDB_REQUIRES_PWCHANGE;
            Ok(S4u2Self { user, realm, local: Some(q), x509: None })
        },
    }
}

/// Options that exclude delegation.
pub open spec fn non_tgt_or_u2u(o: Flags) -> bool {
    o.has(FORWARDED as int) || o.has(PROXY as int) || o.has(RENEW as int) || o.has(VALIDATE as int)
        || o.has(ENC_TKT_IN_SKEY as int)
}

/// Whether an option excludes delegation, or a referral.
pub fn has_non_tgt_or_u2u(o: Flags) -> (r: bool)
    ensures
        r == non_tgt_or_u2u(o),
{
    o.bit(FORWARDED) || o.bit(PROXY) || o.bit(RENEW) || o.bit(VALIDATE) || o.bit(ENC_TKT_IN_SKEY)
}

/// The evidence of a delegation, judged, in the order in which it is judged.
/// `alias` is the entry of the header ticket's client; `evidence_client` is
/// the evidence ticket's client, name with realm, and `target` the requested
/// server.
pub open spec fn spec_tgs_s4u2proxy(
    body: KdcReqBody,
    header: EncTicketPart,
    header_pac: Option<Result<PacFacts, Error>>,
    stkt: Option<SecondTicket>,
    alias: Option<Principal>,
    evidence_client: Seq<char>,
    target: Option<Seq<char>>,
    dest_realm: Seq<char>,
    is_crossrealm: bool,
    is_referral: bool,
) -> Result<(), Error> {
    match stkt {
        None => Err(refusal(BADOPTION, Status::No2ndTkt)),
        Some(st) => if !st.part.flags.has(FORWARDABLE as int) {
            Err(refusal(BADOPTION, Status::EvidenceTktNotForwardable))
        } else if non_tgt_or_u2u(body.kdc_options) {
            Err(refusal(BADOPTION, Status::InvalidS4u2proxyOptions))
        } else if body.sname matches Some(n) && n@.is_krbtgt() {
            Err(refusal(POLICY, Status::NotAllowedToDelegate))
        } else if header_pac is None {
            Err(refusal(TGT_REVOKED, Status::S4u2proxyNoHeaderPac))
        } else if !(header_pac matches Some(Ok(p)) && p.names_client(
            header.authtime,
            header.cname@.joined(),
        )) {
            Err(refusal(BADOPTION, Status::S4u2proxyHeaderPac))
        } else {
            match st.pac {
                None => Err(refusal(MODIFIED, Status::S4u2proxyNoStktPac)),
                Some(Err(_)) => Err(refusal(BADOPTION, Status::S4u2proxyLocalStktPac)),
                Some(Ok(sp)) => if is_crossrealm {
                    if is_referral || !st.server.name@.is_cross_tgs(st.server.realm@)
                        || st.server.name@.components[1] != dest_realm || st.part.cname@
                        != header.cname@ {
                        Err(refusal(BADOPTION, Status::XrealmEvidenceTicketMismatch))
                    } else if !spec_deleg_pac(sp, st.part.authtime, evidence_client, target) {
                        Err(refusal(BADOPTION, Status::S4u2proxyCrossStktPac))
                    } else {
                        Ok(())
                    }
                } else if !(alias matches Some(a) && same_entry(a, st.server)) {
                    Err(refusal(SERVER_NOMATCH, Status::EvidenceTicketMismatch))
                } else if !sp.names_client(st.part.authtime, st.part.cname@.joined()) {
                    Err(refusal(BADOPTION, Status::S4u2proxyLocalStktPac))
                } else {
                    Ok(())
                },
            }
        },
    }
}

/// Judges the evidence of a delegation.
pub fn check_tgs_s4u2proxy(
    body: &KdcReqBody,
    header: &EncTicketPart,
    header_pac: &Option<Result<PacFacts, Error>>,
    stkt: &Option<SecondTicket>,
    alias: Option<&Principal>,
    evidence_client: &str,
    target: Option<&str>,
    dest_realm: &str,
    is_crossrealm: bool,
    is_referral: bool,
) -> (r: Result<(), Error>)
    ensures
        r == spec_tgs_s4u2proxy(
            *body,
            *header,
            *header_pac,
            *stkt,
            crate::issue::tgs_policy::deref_client(alias),
            evidence_client@,
            str_view(target),
            dest_realm@,
            is_crossrealm,
            is_referral,
        ),
{
    let st = match stkt {
        Some(st) => st,
        None => {
            return Err(proto(BADOPTION, Status::No2ndTkt));
        },
    };
    if !st.part.flags.bit(FORWARDABLE) {
        return Err(proto(BADOPTION, Status::EvidenceTktNotForwardable));
    }
    if has_non_tgt_or_u2u(body.kdc_options) {
        return Err(proto(BADOPTION, Status::InvalidS4u2proxyOptions));
    }
    if let Some(n) = &body.sname {
        if n.is_krbtgt() {
            return Err(proto(POLICY, Status::NotAllowedToDelegate));
        }
    }
    match header_pac {
        None => {
            return Err(proto(TGT_REVOKED, Status::S4u2proxyNoHeaderPac));
        },
        Some(Err(_)) => {
            return Err(proto(BADOPTION, Status::S4u2proxyHeaderPac));
        },
        Some(Ok(p)) => {
            let name = header.cname.components_joined();
            if !pac_client_info_eq(p, header.authtime, name.as_str(), None) {
                return Err(proto(BADOPTION, Status::S4u2proxyHeaderPac));
            }
        },
    }
    let sp = match &st.pac {
        None => {
            return Err(proto(MODIFIED, Status::S4u2proxyNoStktPac));
        },
        Some(Err(_)) => {
            return Err(proto(BADOPTION, Status::S4u2proxyLocalStktPac));
        },
        Some(Ok(p)) => p,
    };
    if is_crossrealm {
        if is_referral || !st.server.name.is_cross_tgs_principal(st.server.realm.as_str())
            || !str_eq(st.server.name.name_string[1].as_str(), dest_realm) || !st.part.cname.same(
            &header.cname,
        ) {
            return Err(proto(BADOPTION, Status::XrealmEvidenceTicketMismatch));
        }
        if !verify_deleg_pac(sp, st.part.authtime, evidence_client, target) {
            return Err(proto(BADOPTION, Status::S4u2proxyCrossStktPac));
        }
    } else {
        let is_alias: bool = match alias {
            Some(a) => entries_match(a, &st.server),
            None => false,
        };
        if !is_alias {
            return Err(proto(SERVER_NOMATCH, Status::EvidenceTicketMismatch));
        }
        let name = st.part.cname.components_joined();
        if !pac_client_info_eq(sp, st.part.authtime, name.as_str(), None) {
            return Err(proto(BADOPTION, Status::S4u2proxyLocalStktPac));
        }
    }
    Ok(())
}

/// Whether the client asks for resource-based delegation. `pac_options` is
/// the flag in PA-PAC-OPTIONS, where that datum is there; an unreadable
/// datum is an error.
pub open spec fn asks_rbcd(pac_options: Option<Result<bool, ()>>) -> bool {
    pac_options == Some(Ok::<bool, ()>(true))
}

/// The policy of a delegation: a referral needs resource-based delegation;
/// else the resource may list the impersonator where the client asks for
/// that, or in the local realm the impersonator may list the resource.
pub open spec fn spec_s4u2proxy_policy(
    pac_options: Option<Result<bool, ()>>,
    dest: Seq<char>,
    impersonator_name: Seq<char>,
    impersonator: Principal,
    resource: Principal,
    is_crossrealm: bool,
    is_referral: bool,
) -> Result<(), Error> {
    if pac_options matches Some(Err(_)) {
        Err(refusal(BADOPTION, Status::InvalidS4u2proxyOptions))
    } else if is_referral {
        if asks_rbcd(pac_options) {
            Ok(())
        } else {
            Err(refusal(BADOPTION, Status::UnsupportedS4u2proxyRequest))
        }
    } else if asks_rbcd(pac_options) && has_string(
        resource.s4u_allowed_from@,
        impersonator_name,
    ) {
        Ok(())
    } else if !is_crossrealm && has_string(impersonator.s4u_allowed_to@, dest) {
        Ok(())
    } else if asks_rbcd(pac_options) || !is_crossrealm {
        Err(refusal(BADOPTION, Status::NotAllowedToDelegate))
    } else {
        Err(refusal(BADOPTION, Status::UnsupportedS4u2proxyRequest))
    }
}

/// Judges a delegation by policy.
pub fn check_s4u2proxy_policy(
    pac_options: &Option<Result<bool, ()>>,
    dest: &PrincipalName,
    impersonator_name: &PrincipalName,
    impersonator: &Principal,
    resource: &Principal,
    is_crossrealm: bool,
    is_referral: bool,
) -> (r: Result<(), Error>)
    ensures
        r == spec_s4u2proxy_policy(
            *pac_options,
            dest@.joined(),
            impersonator_name@.joined(),
            *impersonator,
            *resource,
            is_crossrealm,
            is_referral,
        ),
{
    let support_rbcd: bool = match pac_options {
        None => false,
        Some(Ok(b)) => *b,
        Some(Err(_)) => {
            return Err(proto(BADOPTION, Status::InvalidS4u2proxyOptions));
        },
    };
    if is_referral {
        if !support_rbcd {
            return Err(proto(BADOPTION, Status::UnsupportedS4u2proxyRequest));
        }
        return Ok(());
    }
    let mut policy_denial: bool = false;
    if support_rbcd {
        let from = impersonator_name.components_joined();
        if contains_string(resource.s4u_allowed_from.as_slice(), from.as_str()) {
            return Ok(());
        }
        policy_denial = true;
    }
    if !is_crossrealm {
        let want = dest.components_joined();
        if contains_string(impersonator.s4u_allowed_to.as_slice(), want.as_str()) {
            return Ok(());
        }
        policy_denial = true;
    }
    if policy_denial {
        Err(proto(BADOPTION, Status::NotAllowedToDelegate))
    } else {
        Err(proto(BADOPTION, Status::UnsupportedS4u2proxyRequest))
    }
}

/// Nobody delegates without being allowed to: an accepted delegation is a
/// referral, or stands in the resource's list or in the impersonator's.
pub proof fn law_delegation_is_allowed(
    pac_options: Option<Result<bool, ()>>,
    dest: Seq<char>,
    impersonator_name: Seq<char>,
    impersonator: Principal,
    resource: Principal,
    is_crossrealm: bool,
    is_referral: bool,
)
    requires
        spec_s4u2proxy_policy(
            pac_options,
            dest,
            impersonator_name,
            impersonator,
            resource,
            is_crossrealm,
            is_referral,
        ) is Ok,
    ensures
        is_referral || has_string(resource.s4u_allowed_from@, impersonator_name) || has_string(
            impersonator.s4u_allowed_to@,
            dest,
        ),
{
}

/// The delegation buffer after one more hop: the new target, and the service
/// that delegated behind those before it.
pub fn update_delegation_info(
    before: Option<DelegationInfo>,
    proxy_target: String,
    transited: String,
) -> (r: DelegationInfo)
    ensures
        r.proxy_target == proxy_target,
        r.transited_services@ == (match before {
            Some(d) => d.transited_services@,
            None => Seq::empty(),
        }).push(transited),
{
    let mut services: Vec<String> = match before {
        Some(d) => d.transited_services,
        None => Vec::new(),
    };
    services.push(transited);
    DelegationInfo { proxy_target, transited_services: services }
}

/// The client of a ticket from another realm, as its PAC names it: the user
/// as one component, and the realm.
pub open spec fn rbcd_client(pac: Result<PacFacts, Error>) -> Option<(NameView, Seq<char>)> {
    match pac {
        Ok(p) => match p.client_info {
            Some(c) => if carries_realm(c.name@) {
                let at = last_position(c.name@, '@');
                Some(
                    (
                        NameView { name_type: NT_MS_PRINCIPAL, components: seq![c.name@.take(at)] },
                        c.name@.skip(at + 1),
                    ),
                )
            } else {
                None
            },
            None => None,
        },
        Err(_) => None,
    }
}

/// The client of a ticket from another realm, as its PAC names it.
pub fn rbcd_pac_client(pac: &Result<PacFacts, Error>) -> (r: Result<(PrincipalName, String), Error>)
    ensures
        match rbcd_client(*pac) {
            Some(c) => r matches Ok(t) && t.0@ == c.0 && t.1@ == c.1,
            None => r == Err::<(PrincipalName, String), Error>(
                refusal(BADOPTION, Status::RbcdPacPrinc),
            ),
        },
{
    let p = match pac {
        Ok(p) => p,
        Err(_) => {
            return Err(proto(BADOPTION, Status::RbcdPacPrinc));
        },
    };
    match pac_princ_with_realm(p) {
        Some((user, realm, _)) => {
            let mut v: Vec<String> = Vec::new();
            v.push(user);
            let n = PrincipalName { name_type: NT_MS_PRINCIPAL, name_string: v };
            proof {
                assert(n@.components =~= seq![user@]);
            }
            Ok((n, realm))
        },
        None => Err(proto(BADOPTION, Status::RbcdPacPrinc)),
    }
}

/// The string attribute that lists the indicators a server asks for.
pub const REQUIRE_AUTH: &'static str = "require_auth";

/// Some indicator is among the space-separated words of `required`.
pub open spec fn indicator_ok(required: Seq<char>, indicators: Seq<String>) -> bool {
    exists|i: int|
        0 <= i < split(required, ' ').len() && split(required, ' ')[i].len() > 0 && has_string(
            indicators,
            #[trigger] split(required, ' ')[i],
        )
}

/// A server that asks for authentication indicators is given one of them.
pub open spec fn spec_check_indicators(server: Principal, indicators: Seq<String>, at: int) -> Result<
    (),
    Error,
> {
    if at < server.string_attrs@.len() && !indicator_ok(server.string_attrs@[at].1@, indicators) {
        Err(refusal(POLICY, Status::HigherAuthenticationRequired))
    } else {
        Ok(())
    }
}

/// Judges the authentication indicators by what the server asks for.
pub fn check_indicators(server: &Principal, indicators: &[String]) -> (r: Result<(), Error>)
    ensures
        exists|at: int| #[trigger]
            is_first_attr(server.string_attrs@, REQUIRE_AUTH@, at) && r == spec_check_indicators(
                *server,
                indicators@,
                at,
            ),
{
    let at = find_attr(server.string_attrs.as_slice(), REQUIRE_AUTH);
    if at == server.string_attrs.len() {
        return Ok(());
    }
    let cs = crate::text::chars_of(server.string_attrs[at].1.as_str());
    let words = crate::text::split_chars(cs.as_slice(), ' ');
    let ghost all = split(cs@, ' ');
    let mut i: usize = 0;
    while i < words.len()
        invariant
            i <= words.len(),
            at < server.string_attrs@.len(),
            is_first_attr(server.string_attrs@, REQUIRE_AUTH@, at as int),
            all == split(server.string_attrs@[at as int].1@, ' '),
            crate::text::views(words@) == all,
            forall|k: int|
                0 <= k < i ==> !(all[k].len() > 0 && has_string(indicators@, #[trigger] all[k])),
        decreases words.len() - i,
    {
        proof {
            assert(words@[i as int]@ == all[i as int]);
        }
        if !words[i].as_str().is_empty() && contains_string(indicators, words[i].as_str()) {
            proof {
                assert(has_string(indicators@, all[i as int]));
            }
            return Ok(());
        }
        i = i + 1;
    }
    Err(proto(POLICY, Status::HigherAuthenticationRequired))
}

/// An element of a ticket's authorization data: itself, and where it is an
/// AD-IF-RELEVANT that can be read, the elements inside.
pub struct TicketDatum {
    /// The element.
    pub datum: AuthDatum,
    /// The elements inside.
    pub inner: Option<Vec<AuthDatum>>,
}

/// The first element of type AD-WIN2K-PAC.
pub open spec fn first_pac(v: Seq<AuthDatum>) -> Option<Seq<u8>>
    decreases v.len(),
{
    if v.len() == 0 {
        None
    } else if v[0].ad_type == AD_WIN2K_PAC {
        Some(v[0].ad_data@)
    } else {
        first_pac(v.drop_first())
    }
}

/// The PAC of a ticket: the first one in its authorization data, on the
/// first level or inside an AD-IF-RELEVANT.
pub open spec fn ticket_pac(v: Seq<TicketDatum>) -> Option<Seq<u8>>
    decreases v.len(),
{
    if v.len() == 0 {
        None
    } else if v[0].datum.ad_type == AD_WIN2K_PAC {
        Some(v[0].datum.ad_data@)
    } else if v[0].datum.ad_type == AD_IF_RELEVANT && (v[0].inner matches Some(i) && first_pac(
        i@,
    ) is Some) {
        first_pac(v[0].inner->0@)
    } else {
        ticket_pac(v.drop_first())
    }
}

/// The octets of the first PAC in a list.
fn find_first_pac(v: &Vec<AuthDatum>) -> (r: Option<Vec<u8>>)
    ensures
        match r {
            Some(p) => first_pac(v@) == Some(p@),
            None => first_pac(v@) is None,
        },
{
    let mut i: usize = 0;
    proof {
        assert(v@.skip(0) =~= v@);
    }
    while i < v.len()
        invariant
            i <= v.len(),
            first_pac(v@) == first_pac(v@.skip(i as int)),
        decreases v.len() - i,
    {
        proof {
            assert(v@.skip(i as int).drop_first() =~= v@.skip(i + 1));
            assert(v@.skip(i as int)[0] == v@[i as int]);
        }
        if v[i].ad_type == AD_WIN2K_PAC {
            return Some(crate::bytes::copy(v[i].ad_data.as_slice()));
        }
        i = i + 1;
    }
    None
}

/// The PAC of a ticket.
pub fn pac_from_ticket_part(v: &Vec<TicketDatum>) -> (r: Option<Vec<u8>>)
    ensures
        match r {
            Some(p) => ticket_pac(v@) == Some(p@),
            None => ticket_pac(v@) is None,
        },
{
    let mut i: usize = 0;
    proof {
        assert(v@.skip(0) =~= v@);
    }
    while i < v.len()
        invariant
            i <= v.len(),
            ticket_pac(v@) == ticket_pac(v@.skip(i as int)),
        decreases v.len() - i,
    {
        proof {
            assert(v@.skip(i as int).drop_first() =~= v@.skip(i + 1));
            assert(v@.skip(i as int)[0] == v@[i as int]);
        }
        if v[i].datum.ad_type == AD_WIN2K_PAC {
            return Some(crate::bytes::copy(v[i].datum.ad_data.as_slice()));
        }
        if v[i].datum.ad_type == AD_IF_RELEVANT {
            match &v[i].inner {
                Some(inner) => match find_first_pac(inner) {
                    Some(p) => {
                        return Some(p);
                    },
                    None => {},
                },
                None => {},
            }
        }
        i = i + 1;
    }
    None
}

/// The attribute that names the type of the key of a PAC's KDC signatures.
pub const PRIVSVR_ENCTYPE: &'static str = "pac_privsvr_enctype";

/// What a key of a named type comes to: the key itself where it is of that type,
/// else one that is derived from it.
pub open spec fn privsvr_named<D: Fn(&EncryptionKey, &str, i32) -> Option<EncryptionKey>>(
    key: EncryptionKey,
    ty: Option<i32>,
    derive: D,
    r: Result<EncryptionKey, Error>,
) -> bool {
    match ty {
        None => r == Err::<EncryptionKey, Error>(refusal(GENERIC, Status::HeaderPac)),
        Some(t) => if t == key.keytype {
            r matches Ok(k) && key_octets(k) == key_octets(key)
        } else {
            exists|d: Option<EncryptionKey>| #[trigger]
                call_ensures(derive, (&key, "pac_privsvr", t), d) && (match d {
                    Some(k) => r == Ok::<EncryptionKey, Error>(k),
                    None => r == Err::<EncryptionKey, Error>(refusal(GENERIC, Status::HeaderPac)),
                })
        },
    }
}

/// What the key of a PAC's KDC signatures comes to: `key` as it is, but where an
/// attribute of the server names a type.
pub open spec fn privsvr_result<
    N: Fn(&String) -> Option<i32>,
    D: Fn(&EncryptionKey, &str, i32) -> Option<EncryptionKey>,
>(
    server: Principal,
    key: EncryptionKey,
    named: N,
    derive: D,
    r: Result<EncryptionKey, Error>,
) -> bool {
    exists|at: int| #[trigger]
        is_first_attr(server.string_attrs@, PRIVSVR_ENCTYPE@, at) && (if at
            == server.string_attrs@.len() {
            r matches Ok(k) && key_octets(k) == key_octets(key)
        } else {
            exists|ty: Option<i32>| #[trigger]
                call_ensures(named, (&server.string_attrs@[at].1,), ty) && privsvr_named(
                    key,
                    ty,
                    derive,
                    r,
                )
        })
}

/// Makes the key of the KDC signatures of the PACs for a server. `named` reads the
/// name of a key type, and `derive` derives a key of another type under a label.
pub fn pac_privsvr_key<
    N: Fn(&String) -> Option<i32>,
    D: Fn(&EncryptionKey, &str, i32) -> Option<EncryptionKey>,
>(server: &Principal, key: &EncryptionKey, named: &N, derive: &D) -> (r: Result<
    EncryptionKey,
    Error,
>)
    requires
        forall|x: String| #[trigger] call_requires(*named, (&x,)),
        forall|k: EncryptionKey, l: &str, t: i32| #[trigger] call_requires(*derive, (&k, l, t)),
    ensures
        privsvr_result(*server, *key, *named, *derive, r),
{
    let at: usize = find_attr(server.string_attrs.as_slice(), PRIVSVR_ENCTYPE);
    assert(is_first_attr(server.string_attrs@, PRIVSVR_ENCTYPE@, at as int));
    if at == server.string_attrs.len() {
        return Ok(key.copy());
    }
    let ty = named(&server.string_attrs[at].1);
    assert(call_ensures(*named, (&server.string_attrs@[at as int].1,), ty));
    let r: Result<EncryptionKey, Error> = match ty {
        None => Err(proto(GENERIC, Status::HeaderPac)),
        Some(t) => if t == key.keytype {
            Ok(key.copy())
        } else {
            let d = derive(key, "pac_privsvr", t);
            assert(call_ensures(*derive, (key, "pac_privsvr", t), d));
            match d {
                Some(k) => Ok(k),
                None => Err(proto(GENERIC, Status::HeaderPac)),
            }
        },
    };
    assert(privsvr_named(*key, ty, *derive, r));
    r
}

/// Key usage of the checksum in a PA-S4U-X509-USER request.
pub const KU_S4U_X509_REQUEST: u32 = 26;

/// Key usage of the checksum in a PA-S4U-X509-USER reply.
pub const KU_S4U_X509_REPLY: u32 = 27;

/// Key usage of the checksum that answers a PA-S4U-X509-USER: that of a reply
/// only where the request asked for it.
pub fn s4u_reply_usage(use_reply_key_usage: bool) -> (r: u32)
    ensures
        r == (if use_reply_key_usage {
            KU_S4U_X509_REPLY
        } else {
            KU_S4U_X509_REQUEST
        }),
{
    if use_reply_key_usage {
        KU_S4U_X509_REPLY
    } else {
        KU_S4U_X509_REQUEST
    }
}

/// A delegation inside the realm to a server that stands in the impersonator's
/// list is accepted, whatever the PAC options ask for.
pub proof fn law_listed_delegation_is_accepted(
    pac_options: Option<Result<bool, ()>>,
    dest: Seq<char>,
    impersonator_name: Seq<char>,
    impersonator: Principal,
    resource: Principal,
    i: int,
)
    requires
        !(pac_options matches Some(Err(_))),
        0 <= i < impersonator.s4u_allowed_to@.len(),
        impersonator.s4u_allowed_to@[i]@ == dest,
    ensures
        spec_s4u2proxy_policy(
            pac_options,
            dest,
            impersonator_name,
            impersonator,
            resource,
            false,
            false,
        ) is Ok,
{
    assert(has_string(impersonator.s4u_allowed_to@, dest));
}

/// A delegation that asks for resource-based delegation is accepted where the
/// resource lists the impersonator, from whichever realm, and where it is a
/// referral; a referral that does not ask for it, and a request whose options
/// cannot be read, are refused.
pub proof fn law_resource_may_list_the_impersonator(
    dest: Seq<char>,
    impersonator_name: Seq<char>,
    impersonator: Principal,
    resource: Principal,
    is_crossrealm: bool,
    is_referral: bool,
)
    ensures
        resource.s4u_allowed_from@.map_values(|s: String| s@).contains(impersonator_name)
            || is_referral ==> spec_s4u2proxy_policy(
            Some(Ok(true)),
            dest,
            impersonator_name,
            impersonator,
            resource,
            is_crossrealm,
            is_referral,
        ) is Ok,
        refuses(
            spec_s4u2proxy_policy(
                None,
                dest,
                impersonator_name,
                impersonator,
                resource,
                is_crossrealm,
                true,
            ),
            BADOPTION,
            Status::UnsupportedS4u2proxyRequest,
        ),
        spec_s4u2proxy_policy(
            Some(Ok(false)),
            dest,
            impersonator_name,
            impersonator,
            resource,
            is_crossrealm,
            is_referral,
        ) == spec_s4u2proxy_policy(
            None,
            dest,
            impersonator_name,
            impersonator,
            resource,
            is_crossrealm,
            is_referral,
        ),
        refuses(
            spec_s4u2proxy_policy(
                Some(Err(())),
                dest,
                impersonator_name,
                impersonator,
                resource,
                is_crossrealm,
                is_referral,
            ),
            BADOPTION,
            Status::InvalidS4u2proxyOptions,
        ),
{
    let from = resource.s4u_allowed_from@;
    let names = from.map_values(|s: String| s@);
    if names.contains(impersonator_name) {
        let i = choose|i: int| 0 <= i < names.len() && names[i] == impersonator_name;
        assert(from[i]@ == impersonator_name);
        assert(has_string(from, impersonator_name));
    }
}

/// A delegation that is no referral is accepted only by a list that may decide
/// it: the resource's where resource-based delegation is asked for, the
/// impersonator's inside the realm.
pub proof fn law_each_list_has_its_place(
    pac_options: Option<Result<bool, ()>>,
    dest: Seq<char>,
    impersonator_name: Seq<char>,
    impersonator: Principal,
    resource: Principal,
    is_crossrealm: bool,
)
    requires
        !(pac_options matches Some(Err(_))),
    ensures
        ({
            let r = spec_s4u2proxy_policy(
                pac_options,
                dest,
                impersonator_name,
                impersonator,
                resource,
                is_crossrealm,
                false,
            );
            let listed_from = exists|i: int|
                0 <= i < resource.s4u_allowed_from@.len() && (
                #[trigger] resource.s4u_allowed_from@[i])@ == impersonator_name;
            let listed_to = exists|i: int|
                0 <= i < impersonator.s4u_allowed_to@.len() && (
                #[trigger] impersonator.s4u_allowed_to@[i])@ == dest;
            &&& r is Ok <==> (pac_options == Some(Ok::<bool, ()>(true)) && listed_from) || (
            !is_crossrealm && listed_to)
            &&& r is Err ==> (if is_crossrealm && pac_options != Some(Ok::<bool, ()>(true)) {
                refuses(r, BADOPTION, Status::UnsupportedS4u2proxyRequest)
            } else {
                refuses(r, BADOPTION, Status::NotAllowedToDelegate)
            })
        }),
{
    assert(has_string(resource.s4u_allowed_from@, impersonator_name) == (exists|i: int|
        0 <= i < resource.s4u_allowed_from@.len() && (
        #[trigger] resource.s4u_allowed_from@[i])@ == impersonator_name));
    assert(has_string(impersonator.s4u_allowed_to@, dest) == (exists|i: int|
        0 <= i < impersonator.s4u_allowed_to@.len() && (
        #[trigger] impersonator.s4u_allowed_to@[i])@ == dest));
}

/// The evidence of a delegation inside the realm is accepted exactly where it is
/// forwardable, no option excludes delegation, the target is no ticket-granting
/// service, both PACs name their tickets' clients, and the evidence was issued
/// to the service that presents it.
pub proof fn law_local_evidence_is_judged(
    body: KdcReqBody,
    header: EncTicketPart,
    header_pac: Option<Result<PacFacts, Error>>,
    st: SecondTicket,
    alias: Option<Principal>,
    evidence_client: Seq<char>,
    target: Option<Seq<char>>,
    dest_realm: Seq<char>,
    is_referral: bool,
)
    ensures
        spec_tgs_s4u2proxy(
            body,
            header,
            header_pac,
            Some(st),
            alias,
            evidence_client,
            target,
            dest_realm,
            false,
            is_referral,
        ) is Ok <==> {
            &&& st.part.flags.has(FORWARDABLE as int)
            &&& !body.kdc_options.has(FORWARDED as int)
            &&& !body.kdc_options.has(PROXY as int)
            &&& !body.kdc_options.has(RENEW as int)
            &&& !body.kdc_options.has(VALIDATE as int)
            &&& !body.kdc_options.has(ENC_TKT_IN_SKEY as int)
            &&& body.sname matches Some(n) ==> !(n@.components.len() == 2 && n@.components[0]
                == "krbtgt"@)
            &&& header_pac matches Some(Ok(p)) && p.names_client(
                header.authtime,
                header.cname@.joined(),
            )
            &&& st.pac matches Some(Ok(p)) && p.names_client(
                st.part.authtime,
                st.part.cname@.joined(),
            )
            &&& alias matches Some(a) && a.name@ == st.server.name@ && a.realm@ == st.server.realm@
        },
{
}

/// The evidence of a delegation from another realm is accepted exactly where it
/// is forwardable, no option excludes delegation, the target is no
/// ticket-granting service, the presented ticket's PAC names its client, and
/// the evidence is a ticket to the destination's realm for that same client
/// whose PAC vouches for the delegation; never for a referral.
pub proof fn law_foreign_evidence_is_judged(
    body: KdcReqBody,
    header: EncTicketPart,
    header_pac: Option<Result<PacFacts, Error>>,
    st: SecondTicket,
    alias: Option<Principal>,
    evidence_client: Seq<char>,
    target: Option<Seq<char>>,
    dest_realm: Seq<char>,
    is_referral: bool,
)
    ensures
        spec_tgs_s4u2proxy(
            body,
            header,
            header_pac,
            Some(st),
            alias,
            evidence_client,
            target,
            dest_realm,
            true,
            is_referral,
        ) is Ok <==> {
            &&& !is_referral
            &&& st.part.flags.has(FORWARDABLE as int)
            &&& !body.kdc_options.has(FORWARDED as int)
            &&& !body.kdc_options.has(PROXY as int)
            &&& !body.kdc_options.has(RENEW as int)
            &&& !body.kdc_options.has(VALIDATE as int)
            &&& !body.kdc_options.has(ENC_TKT_IN_SKEY as int)
            &&& body.sname matches Some(n) ==> !(n@.components.len() == 2 && n@.components[0]
                == "krbtgt"@)
            &&& header_pac matches Some(Ok(p)) && p.names_client(
                header.authtime,
                header.cname@.joined(),
            )
            &&& st.server.name@.components == seq!["krbtgt"@, dest_realm]
            &&& st.server.realm@ != dest_realm
            &&& st.part.cname@ == header.cname@
            &&& st.pac matches Some(Ok(p)) && spec_deleg_pac(
                p,
                st.part.authtime,
                evidence_client,
                target,
            )
        },
        refuses(
            spec_tgs_s4u2proxy(
                body,
                header,
                header_pac,
                None,
                alias,
                evidence_client,
                target,
                dest_realm,
                true,
                is_referral,
            ),
            BADOPTION,
            Status::No2ndTkt,
        ),
{
    let n = st.server.name@;
    if n.is_krbtgt() && n.components[1] == dest_realm {
        assert(n.components =~= seq!["krbtgt"@, dest_realm]);
    }
}

/// A checksum counts where it is right and nowhere else: a wrong one says that
/// something was modified.
pub proof fn law_only_a_right_checksum_counts(
    types: Seq<CksumType>,
    cksumtype: i32,
    o: CksumOutcome,
)
    ensures
        spec_pac_signature_outcome(o) is Ok <==> o is Good,
        spec_s4u_cksum(o) is Ok <==> o is Good,
        refuses(spec_pac_signature_outcome(o), MODIFIED, Status::HeaderPac) <==> o is Integrity,
        refuses(spec_s4u_cksum(o), MODIFIED, Status::InvalidS4u2selfChecksum) <==> o is Integrity,
        refuses(spec_s4u_cksum(o), INAPP_CKSUM, Status::InvalidS4u2selfChecksum) <==> o
            is Inappropriate,
{
}

/// A checksum type is keyed exactly where the first description of it says so.
pub proof fn law_first_description_counts(
    before: Seq<CksumType>,
    form: CksumType,
    behind: Seq<CksumType>,
)
    requires
        forall|i: int|
            0 <= i < before.len() ==> (#[trigger] before[i]).cksumtype != form.cksumtype,
    ensures
        cksum_form(before + seq![form] + behind, form.cksumtype) == Some(form),
        keyed(before + seq![form] + behind, form.cksumtype) == form.keyed,
        cksum_form(before, form.cksumtype) is None,
        !keyed(before, form.cksumtype),
    decreases before.len(),
{
    let all = before + seq![form] + behind;
    let ty = form.cksumtype;
    if before.len() == 0 {
        assert(all[0] == form);
    } else {
        let t = before.drop_first();
        assert forall|i: int| 0 <= i < t.len() implies (#[trigger] t[i]).cksumtype != ty by {
            assert(t[i] == before[i + 1]);
        }
        law_first_description_counts(t, form, behind);
        assert(all[0] == before[0]);
        assert(all.drop_first() =~= t + seq![form] + behind);
        let more = t + seq![form] + behind;
        lemma_cksum_position(more, ty);
        lemma_cksum_position(t, ty);
        assert(more[t.len() as int] == form);
        assert(all[cksum_position(all, ty)] == more[cksum_position(more, ty)]);
    }
}

/// The place of a description lies in the list, or is its length.
proof fn lemma_cksum_position(types: Seq<CksumType>, ty: i32)
    ensures
        0 <= cksum_position(types, ty) <= types.len(),
        forall|k: int|
            0 <= k < cksum_position(types, ty) ==> (#[trigger] types[k]).cksumtype != ty,
    decreases types.len(),
{
    if types.len() > 0 && types[0].cksumtype != ty {
        let t = types.drop_first();
        lemma_cksum_position(t, ty);
        assert forall|k: int| 0 <= k < cksum_position(types, ty) implies (
        #[trigger] types[k]).cksumtype != ty by {
            if k > 0 {
                assert(t[k - 1] == types[k]);
            }
        }
    }
}

/// Ticket-granting services and `kadmin/changepw` get tickets without a ticket
/// signature, and every other service with one.
pub proof fn law_service_tickets_are_signed(sname: NameView)
    ensures
        !has_ticket_signature(sname) <==> {
            ||| sname.components == seq!["kadmin"@, "changepw"@]
            ||| exists|realm: Seq<char>| sname.components == #[trigger] seq!["krbtgt"@, realm]
        },
{
    if sname.is_krbtgt() {
        assert(sname.components =~= seq!["krbtgt"@, sname.components[1]]);
    }
}

/// A PAC that the current key does not find modified is judged by that key
/// alone; one that it does is good where the version before is there and finds
/// it good, or is there, does not, and the version before that one does.
pub proof fn law_older_keys_may_mend(kvno: u32, first: Result<(), Error>, older: Seq<Option<bool>>)
    ensures
        first is Ok ==> spec_verified_pac(kvno, first, older) is Ok,
        first matches Err(Error::Protocol { code, .. }) && code != MODIFIED ==> spec_verified_pac(
            kvno,
            first,
            older,
        ) == first,
        first matches Err(e) && !(e is Protocol) ==> spec_verified_pac(kvno, first, older) == first,
        first matches Err(Error::Protocol { code, .. }) && code == MODIFIED ==> ({
            let r = spec_verified_pac(kvno, first, older);
            &&& r is Ok <==> {
                ||| kvno >= 2 && older.len() >= 1 && older[0] == Some(true)
                ||| kvno >= 3 && older.len() >= 2 && older[0] == Some(false) && older[1] == Some(
                    true,
                )
            }
            &&& r is Err ==> refuses(r, MODIFIED, Status::HeaderPac)
        }),
{
}

/// A signature buffer is refused exactly where it is missing, holds no type, is
/// a server signature of the refused type, or is of a type that is unknown, not
/// keyed, or longer than what is there.
pub proof fn law_signature_is_refused(types: Seq<CksumType>, b: Seq<u8>, buffer_type: u32)
    ensures
        signature_refusal(types, None, buffer_type) is Some,
        signature_refusal(types, Some(b), buffer_type) is None <==> {
            &&& b.len() >= 4
            &&& buffer_type == PAC_SERVER_CHECKSUM ==> from_le32(b, 0) as i32 != CKSUMTYPE_SHA1
            &&& cksum_form(types, from_le32(b, 0) as i32) matches Some(f) && f.keyed && 4 + f.size
                <= b.len()
        },
{
}

/// A trusted realm keeps each identifier that is its own, in the order it gave
/// them: what is left of two lists together is what is left of each.
pub proof fn law_own_sids_are_kept(a: Seq<Sid>, b: Seq<Sid>, s: Sid)
    ensures
        foreign(a).contains(s) <==> a.contains(s) && !s.local,
        foreign(a + b) == foreign(a) + foreign(b),
        foreign(seq![s]) == (if s.local {
            Seq::<Sid>::empty()
        } else {
            seq![s]
        }),
{
    let keep = |x: Sid| !x.local;
    reveal(Seq::filter);
    Seq::filter_distributes_over_add(a, b, keep);
    assert(seq![s].drop_last() =~= Seq::<Sid>::empty());
    assert(seq![s].drop_last().filter(keep) =~= Seq::<Sid>::empty());
    if a.contains(s) && !s.local {
        let i = choose|i: int| 0 <= i < a.len() && a[i] == s;
        a.lemma_filter_contains(keep, i);
    }
    if foreign(a).contains(s) {
        let i = choose|i: int| 0 <= i < foreign(a).len() && foreign(a)[i] == s;
        a.lemma_filter_pred(keep, i);
        a.lemma_filter_contains_rev(keep, s);
    }
}

/// A ticket passes by its PAC exactly where it has none, or a readable one that
/// names the ticket's client or, on the way to another realm, vouches for a
/// delegation.
pub proof fn law_presented_pac_is_the_clients(
    tkt: EncTicketPart,
    client: Seq<char>,
    pac: Option<Result<PacFacts, Error>>,
    server: Principal,
    is_crossrealm: bool,
)
    ensures
        spec_normal_tgs_pac(tkt, client, pac, server, is_crossrealm) is Ok <==> (pac matches Some(
            x,
        ) ==> (x matches Ok(p) && {
            ||| p.names_client(tkt.authtime, tkt.cname@.joined())
            ||| {
                &&& is_crossrealm
                &&& server.name@.components.len() == 2
                &&& server.name@.components[0] == "krbtgt"@
                &&& server.name@.components[1] != server.realm@
                &&& spec_deleg_pac(p, tkt.authtime, client, None)
            }
        })),
        pac matches Some(Err(e)) ==> spec_normal_tgs_pac(tkt, client, pac, server, is_crossrealm)
            == Err::<(), Error>(e),
{
}

/// A user of another realm is taken as given. A local one is taken where it is
/// named, not given by certificate, and found; it keeps every attribute but the
/// duty to change the password.
pub proof fn law_user_is_found(
    store_realm: Seq<char>,
    realm: Seq<char>,
    has_cert: bool,
    fetched: Result<Option<Principal>, Error>,
    p: Principal,
    b: u32,
)
    ensures
        s4u_user_refusal(store_realm, realm, has_cert, fetched) is None <==> realm == store_realm
            ==> !has_cert && (fetched matches Ok(Some(_))),
        counted_user(p).pw_expire == 0,
        counted_user(p).attributes & KDB_REQUIRES_PWCHANGE == 0,
        b & KDB_REQUIRES_PWCHANGE == 0 ==> counted_user(p).attributes & b == p.attributes & b,
        p == (Principal {
            pw_expire: p.pw_expire,
            attributes: p.attributes,
            ..counted_user(p)
        }),
{
    let a = p.attributes;
    let w = KDB_REQUIRES_PWCHANGE;
    assert((a & !w) & w == 0) by (bit_vector);
    assert(b & w == 0 ==> (a & !w) & b == a & b) by (bit_vector);
}

/// A server that asks for authentication indicators is satisfied by one of them,
/// whichever, and by nothing else; a server that asks for none by anything.
pub proof fn law_one_indicator_is_enough(
    server: Principal,
    indicators: Seq<String>,
    words: Seq<Seq<char>>,
    at: int,
)
    requires
        0 <= at < server.string_attrs@.len(),
        words.len() > 0,
        forall|i: int|
            0 <= i < words.len() ==> (#[trigger] words[i]).len() > 0 && !words[i].contains(' '),
        server.string_attrs@[at].1@ == join(words, ' '),
    ensures
        spec_check_indicators(server, indicators, at) is Ok <==> exists|i: int, j: int|
            0 <= i < words.len() && 0 <= j < indicators.len() && #[trigger] words[i] == (
            #[trigger] indicators[j])@,
        spec_check_indicators(server, indicators, server.string_attrs@.len() as int) is Ok,
        spec_check_indicators(server, indicators, at) is Err ==> refuses(
            spec_check_indicators(server, indicators, at),
            POLICY,
            Status::HigherAuthenticationRequired,
        ),
{
    crate::text::law_split_of_join(words, ' ');
    if exists|i: int, j: int|
        0 <= i < words.len() && 0 <= j < indicators.len() && #[trigger] words[i] == (
        #[trigger] indicators[j])@ {
        let (i, j) = choose|i: int, j: int|
            0 <= i < words.len() && 0 <= j < indicators.len() && #[trigger] words[i] == (
            #[trigger] indicators[j])@;
        assert(words[i].len() > 0);
        assert(has_string(indicators, split(join(words, ' '), ' ')[i]));
    }
}

/// The PAC of a ticket is the first datum of its type, whatever stands before
/// that is of another type and holds none, and whatever stands behind.
pub proof fn law_first_pac_is_the_tickets(
    before: Seq<TicketDatum>,
    d: TicketDatum,
    behind: Seq<TicketDatum>,
)
    requires
        forall|i: int|
            0 <= i < before.len() ==> (#[trigger] before[i]).datum.ad_type != AD_WIN2K_PAC
                && before[i].datum.ad_type != AD_IF_RELEVANT,
    ensures
        d.datum.ad_type == AD_WIN2K_PAC ==> ticket_pac(before + seq![d] + behind) == Some(
            d.datum.ad_data@,
        ),
        d.inner matches Some(v) ==> d.datum.ad_type == AD_IF_RELEVANT && v@.len() > 0
            && v@[0].ad_type == AD_WIN2K_PAC ==> ticket_pac(before + seq![d] + behind) == Some(
            v@[0].ad_data@,
        ),
        ticket_pac(before) is None,
    decreases before.len(),
{
    let all = before + seq![d] + behind;
    if before.len() == 0 {
        assert(all[0] == d);
    } else {
        let t = before.drop_first();
        assert forall|i: int| 0 <= i < t.len() implies (#[trigger] t[i]).datum.ad_type
            != AD_WIN2K_PAC && t[i].datum.ad_type != AD_IF_RELEVANT by {
            assert(t[i] == before[i + 1]);
        }
        law_first_pac_is_the_tickets(t, d, behind);
        assert(all[0] == before[0]);
        assert(all.drop_first() =~= t + seq![d] + behind);
    }
}

/// Foreign logon information keeps its domain; groups of a resource domain stay
/// where that domain is foreign too, and go with it where it is the local one.
pub proof fn law_local_resource_groups_are_dropped(logon: LogonSids, r: Result<LogonSids, Error>)
    requires
        logon_filtered(logon, r),
    ensures
        logon.domain.local <==> r is Err,
        logon.domain.local ==> refuses(r, POLICY, Status::InvalidLineage),
        r matches Ok(l) ==> l.domain == logon.domain,
        r matches Ok(l) ==> logon.resource_domain matches Some(d) ==> d.local
            ==> l.resource_domain is None && l.resource_groups@.len() == 0,
        r matches Ok(l) ==> logon.resource_domain matches Some(d) ==> !d.local
            ==> l.resource_domain == Some(d) && l.resource_groups == logon.resource_groups,
        r matches Ok(l) ==> logon.resource_domain is None ==> l.resource_domain is None
            && l.resource_groups == logon.resource_groups,
{
}

/// A signing key of the type that is asked for is the key itself; one of another
/// type is derived, and an unknown type is refused.
pub proof fn law_own_type_needs_no_derivation<
    D: Fn(&EncryptionKey, &str, i32) -> Option<EncryptionKey>,
>(key: EncryptionKey, ty: Option<i32>, derive: D, r: Result<EncryptionKey, Error>)
    requires
        privsvr_named(key, ty, derive, r),
    ensures
        ty == Some(key.keytype) ==> r is Ok && key_octets(r->Ok_0) == key_octets(key),
        ty is None ==> refuses(r, GENERIC, Status::HeaderPac),
        ty matches Some(t) ==> t != key.keytype ==> r is Ok ==> call_ensures(
            derive,
            (&key, "pac_privsvr", t),
            Some(r->Ok_0),
        ),
        ty matches Some(t) ==> t != key.keytype ==> r is Err ==> refuses(
            r,
            GENERIC,
            Status::HeaderPac,
        ),
{
}

/// The client that a PAC names with its realm is read as name and realm; one that
/// carries none is nobody.
pub proof fn law_named_client_carries_its_realm(p: PacFacts)
    ensures
        p.client_info is None ==> rbcd_client(Ok(p)) is None,
        p.client_info matches Some(c) ==> (rbcd_client(Ok(p)) is Some <==> carries_realm(c.name@)),
        p.client_info matches Some(c) ==> rbcd_client(Ok(p)) matches Some(t) ==> t.1
            == c.name@.skip(last_position(c.name@, '@') + 1) && t.0.components == seq![
            c.name@.take(last_position(c.name@, '@')),
        ],
{
}

} // verus!
