//! Keys, the header ticket, and small judgements shared by both kinds of
//! request.

use crate::ad::{cksum_form, find_cksum, CksumOutcome, CksumType};
use crate::bytes::slice_eq;
use crate::error::{
    proto, refusal, refuses, Error, Status, BADADDR, BADMATCH, BAD_INTEGRITY, ETYPE_NOSUPP, GENERIC,
    INAPP_CKSUM, POLICY, SUMTYPE_NOSUPP, TKT_EXPIRED, TKT_NYV,
    UNKNOWN_CRITICAL_FAST_OPTION,
};
use crate::msg::{
    EncTicketPart, EncryptionKey, HostAddress, ADDRTYPE_NETBIOS, AD_AUTH_INDICATOR, AD_CAMMAC,
    AD_FX_ARMOR, AD_KDC_ISSUED, AD_SIGNTICKET, AD_WIN2K_PAC,
};
use crate::name::PrincipalName;
use crate::store::{
    attr, attr_set, contains_i32, max_kvno, Policy, Principal, AES256_CTS_HMAC_SHA1_96,
    DES3_CBC_SHA1, KDB_NO_AUTH_DATA_REQUIRED, RC4_HMAC,
};
use crate::text::str_eq;
use vstd::prelude::*;
use vstd::string::*;

verus! {

/// Whether the server can use session keys of type `etype`: as its
/// `session_enctypes` attribute says where it is set, else aes256 or a type
/// of which it has a permitted current key.
pub open spec fn supports_enctype(
    policy: Policy,
    server: Principal,
    session_enctypes: Option<Seq<i32>>,
    etype: i32,
) -> bool {
    match session_enctypes {
        Some(l) => l.contains(etype),
        None => etype == AES256_CTS_HMAC_SHA1_96 || exists|i: int|
            0 <= i < server.keys@.len() && policy.key_matches(
                #[trigger] server.keys@[i],
                Some(etype),
                max_kvno(server.keys@),
            ),
    }
}

/// Whether `etype` can be the type of a session key for the server.
pub open spec fn session_enctype_ok(
    policy: Policy,
    server: Principal,
    session_enctypes: Option<Seq<i32>>,
    etype: i32,
) -> bool {
    &&& policy.knows(etype)
    &&& policy.permits(etype)
    &&& etype == DES3_CBC_SHA1 ==> policy.allow_des3
    &&& etype == RC4_HMAC ==> policy.allow_rc4
    &&& supports_enctype(policy, server, session_enctypes, etype)
}

pub open spec fn i32_slice(v: Option<&[i32]>) -> Option<Seq<i32>> {
    match v {
        Some(s) => Some(s@),
        None => None,
    }
}

fn dbentry_supports_enctype(
    policy: &Policy,
    server: &Principal,
    session_enctypes: Option<&[i32]>,
    etype: i32,
) -> (r: bool)
    ensures
        r == supports_enctype(*policy, *server, i32_slice(session_enctypes), etype),
{
    match session_enctypes {
        Some(l) => contains_i32(l, etype),
        None => {
            if etype == AES256_CTS_HMAC_SHA1_96 {
                return true;
            }
            match policy.find_enctype(server, Some(etype), 0) {
                Some(i) => {
                    proof {
                        assert(policy.key_matches(
                            server.keys@[i as int],
                            Some(etype),
                            max_kvno(server.keys@),
                        ));
                    }
                    true
                },
                None => false,
            }
        },
    }
}

/// `e` is the first requested type that can be the type of a session key.
pub open spec fn first_session_enctype(
    policy: Policy,
    server: Principal,
    session_enctypes: Option<Seq<i32>>,
    requested: Seq<i32>,
    e: i32,
) -> bool {
    exists|i: int|
        {
            &&& 0 <= i < requested.len()
            &&& #[trigger] requested[i] == e
            &&& session_enctype_ok(policy, server, session_enctypes, e)
            &&& forall|j: int|
                0 <= j < i ==> !session_enctype_ok(
                    policy,
                    server,
                    session_enctypes,
                    #[trigger] requested[j],
                )
        }
}

/// Chooses the type of the session key. `session_enctypes` is the server's
/// list of that name, where it has one that can be read.
pub fn select_session_keytype(
    policy: &Policy,
    server: &Principal,
    session_enctypes: Option<&[i32]>,
    requested: &[i32],
) -> (r: Result<i32, Error>)
    ensures
        match r {
            Ok(e) => first_session_enctype(
                *policy,
                *server,
                i32_slice(session_enctypes),
                requested@,
                e,
            ),
            Err(e) => e == refusal(ETYPE_NOSUPP, Status::BadEncryptionType) && forall|i: int|
                0 <= i < requested@.len() ==> !session_enctype_ok(
                    *policy,
                    *server,
                    i32_slice(session_enctypes),
                    #[trigger] requested@[i],
                ),
        },
{
    let mut i: usize = 0;
    while i < requested.len()
        invariant
            i <= requested.len(),
            forall|j: int|
                0 <= j < i ==> !session_enctype_ok(
                    *policy,
                    *server,
                    i32_slice(session_enctypes),
                    #[trigger] requested@[j],
                ),
        decreases requested.len() - i,
    {
        let e: i32 = requested[i];
        if policy.etype_known(e) && policy.etype_permitted(e) && !(e == DES3_CBC_SHA1
            && !policy.allow_des3) && !(e == RC4_HMAC && !policy.allow_rc4)
            && dbentry_supports_enctype(policy, server, session_enctypes, e) {
            proof {
                assert(requested@[i as int] == e);
            }
            return Ok(e);
        }
        i = i + 1;
    }
    Err(proto(ETYPE_NOSUPP, Status::BadEncryptionType))
}

/// A permitted key of the wanted type, of any version.
pub open spec fn usable_key(policy: Policy, p: Principal, want: Option<i32>, i: int) -> bool {
    0 <= i < p.keys@.len() && policy.key_matches(p.keys@[i], want, p.keys@[i].kvno)
}

/// Key `i` is the one that opens tickets for `p` under version `kvno`, where
/// 0 stands for any version: the first usable key of that version, or of the
/// newest version that has one.
pub open spec fn is_server_key(
    policy: Policy,
    p: Principal,
    want: Option<i32>,
    kvno: u32,
    i: int,
) -> bool {
    &&& usable_key(policy, p, want, i)
    &&& kvno != 0 ==> p.keys@[i].kvno == kvno
    &&& forall|j: int|
        #![trigger p.keys@[j]]
        usable_key(policy, p, want, j) && (kvno != 0 ==> p.keys@[j].kvno == kvno)
            ==> p.keys@[j].kvno < p.keys@[i].kvno || (p.keys@[j].kvno == p.keys@[i].kvno && i <= j)
}

/// No key of `p` opens tickets under version `kvno`.
pub open spec fn no_server_key(
    policy: Policy,
    p: Principal,
    want: Option<i32>,
    kvno: u32,
) -> bool {
    forall|j: int|
        #![trigger p.keys@[j]]
        usable_key(policy, p, want, j) ==> kvno != 0 && p.keys@[j].kvno != kvno
}

/// Finds the key that opens tickets for `p` under version `kvno`.
pub fn find_server_key(policy: &Policy, p: &Principal, want: Option<i32>, kvno: u32) -> (r: Option<
    usize,
>)
    ensures
        match r {
            Some(i) => is_server_key(*policy, *p, want, kvno, i as int),
            None => no_server_key(*policy, *p, want, kvno),
        },
{
    let mut best: Option<usize> = None;
    let mut i: usize = 0;
    while i < p.keys.len()
        invariant
            i <= p.keys.len(),
            match best {
                Some(b) => {
                    &&& b < i
                    &&& usable_key(*policy, *p, want, b as int)
                    &&& kvno != 0 ==> p.keys@[b as int].kvno == kvno
                    &&& forall|j: int|
                        #![trigger p.keys@[j]]
                        j < i && usable_key(*policy, *p, want, j) && (kvno != 0
                            ==> p.keys@[j].kvno == kvno) ==> p.keys@[j].kvno
                            < p.keys@[b as int].kvno || (p.keys@[j].kvno
                            == p.keys@[b as int].kvno && b <= j)
                },
                None => forall|j: int|
                    #![trigger p.keys@[j]]
                    j < i && usable_key(*policy, *p, want, j) ==> kvno != 0 && p.keys@[j].kvno
                        != kvno,
            },
        decreases p.keys.len() - i,
    {
        let k = &p.keys[i];
        let wanted: bool = match want {
            Some(e) => k.etype == e,
            None => true,
        };
        if wanted && (kvno == 0 || k.kvno == kvno) && policy.etype_permitted(k.etype) {
            let newer: bool = match best {
                Some(b) => p.keys[b].kvno < k.kvno,
                None => true,
            };
            if newer {
                best = Some(i);
            }
        }
        i = i + 1;
    }
    best
}

/// Authorization data as it nests.
pub enum AuthElement {
    /// An element of this type.
    Plain(i32),
    /// An AD-IF-RELEVANT container; its elements, where they can be read.
    IfRelevant(Option<Vec<AuthElement>>),
}

/// Types that only a KDC may put into authorization data.
pub open spec fn kdc_only(ad_type: i32) -> bool {
    ad_type == AD_SIGNTICKET || ad_type == AD_KDC_ISSUED || ad_type == AD_WIN2K_PAC || ad_type
        == AD_CAMMAC || ad_type == AD_AUTH_INDICATOR
}

/// Whether authorization data hold an element of type `ad_type`, containers
/// opened; an unreadable container before it is a failure. In data from an
/// authenticator the types that only a KDC may put there do not count.
pub open spec fn finds_authdata(
    ad: Seq<AuthElement>,
    ad_type: i32,
    from_ap_req: bool,
) -> Result<bool, ()>
    decreases ad,
{
    if ad.len() == 0 {
        Ok(false)
    } else {
        match ad[0] {
            AuthElement::Plain(t) => if t == ad_type && !(from_ap_req && kdc_only(t)) {
                Ok(true)
            } else {
                finds_authdata(ad.drop_first(), ad_type, from_ap_req)
            },
            AuthElement::IfRelevant(None) => Err(()),
            AuthElement::IfRelevant(Some(inner)) => match finds_authdata(
                inner@,
                ad_type,
                from_ap_req,
            ) {
                Err(_) => Err(()),
                Ok(true) => Ok(true),
                Ok(false) => finds_authdata(ad.drop_first(), ad_type, from_ap_req),
            },
        }
    }
}

/// Looks for an element of type `ad_type`.
pub fn find_authdata(ad: &Vec<AuthElement>, ad_type: i32, from_ap_req: bool) -> (r: Result<
    bool,
    (),
>)
    ensures
        r == finds_authdata(ad@, ad_type, from_ap_req),
    decreases ad,
{
    let mut i: usize = 0;
    proof {
        assert(ad@.skip(0) =~= ad@);
    }
    while i < ad.len()
        invariant
            i <= ad.len(),
            finds_authdata(ad@, ad_type, from_ap_req) == finds_authdata(
                ad@.skip(i as int),
                ad_type,
                from_ap_req,
            ),
        decreases ad.len() - i,
    {
        proof {
            assert(ad@.skip(i as int).drop_first() =~= ad@.skip(i + 1));
            assert(ad@.skip(i as int)[0] == ad@[i as int]);
            assert(decreases_to!(ad@ => ad@[i as int]));
        }
        match &ad[i] {
            AuthElement::Plain(t) => {
                let t: i32 = *t;
                let skipped: bool = from_ap_req && (t == AD_SIGNTICKET || t == AD_KDC_ISSUED || t
                    == AD_WIN2K_PAC || t == AD_CAMMAC || t == AD_AUTH_INDICATOR);
                if t == ad_type && !skipped {
                    return Ok(true);
                }
            },
            AuthElement::IfRelevant(None) => {
                return Err(());
            },
            AuthElement::IfRelevant(Some(inner)) => {
                match find_authdata(inner, ad_type, from_ap_req) {
                    Err(_) => {
                        return Err(());
                    },
                    Ok(b) => {
                        if b {
                            return Ok(true);
                        }
                    },
                }
            },
        }
        i = i + 1;
    }
    Ok(false)
}

/// Whether a ticket is valid as armor only: its own authorization data or
/// the authenticator's hold AD-FX-ARMOR.
pub open spec fn spec_fx_armor_present(
    ticket_ad: Option<Vec<AuthElement>>,
    authenticator_ad: Option<Vec<AuthElement>>,
) -> Result<bool, ()> {
    let in_ticket = match ticket_ad {
        Some(ad) => finds_authdata(ad@, AD_FX_ARMOR, false),
        None => Ok(false),
    };
    if in_ticket == Ok::<bool, ()>(false) {
        match authenticator_ad {
            Some(ad) => finds_authdata(ad@, AD_FX_ARMOR, true),
            None => Ok(false),
        }
    } else {
        in_ticket
    }
}

fn fx_armor_present(
    ticket_ad: &Option<Vec<AuthElement>>,
    authenticator_ad: &Option<Vec<AuthElement>>,
) -> (r: Result<bool, ()>)
    ensures
        r == spec_fx_armor_present(*ticket_ad, *authenticator_ad),
{
    if let Some(ad) = ticket_ad {
        match find_authdata(ad, AD_FX_ARMOR, false) {
            Err(e) => {
                return Err(e);
            },
            Ok(b) => {
                if b {
                    return Ok(true);
                }
            },
        }
    }
    match authenticator_ad {
        Some(ad) => find_authdata(ad, AD_FX_ARMOR, true),
        None => Ok(false),
    }
}

/// Two addresses of the same type and octets.
pub open spec fn same_address(a: HostAddress, b: HostAddress) -> bool {
    a.addr_type == b.addr_type && a.address@ == b.address@
}

/// An address is among those of a ticket. A ticket without addresses, or
/// with a NetBIOS address alone, is good anywhere.
pub open spec fn address_ok(addr: HostAddress, list: Option<Vec<HostAddress>>) -> bool {
    match list {
        None => true,
        Some(l) => (l@.len() == 1 && l@[0].addr_type == ADDRTYPE_NETBIOS) || exists|i: int|
            0 <= i < l@.len() && same_address(#[trigger] l@[i], addr),
    }
}

/// Whether an address is among those of a ticket.
pub fn address_search(addr: &HostAddress, list: &Option<Vec<HostAddress>>) -> (r: bool)
    ensures
        r == address_ok(*addr, *list),
{
    let l = match list {
        Some(l) => l,
        None => {
            return true;
        },
    };
    if l.len() == 1 && l[0].addr_type == ADDRTYPE_NETBIOS {
        return true;
    }
    let mut i: usize = 0;
    while i < l.len()
        invariant
            *list == Some(*l),
            i <= l.len(),
            forall|k: int| 0 <= k < i ==> !same_address(#[trigger] l@[k], *addr),
        decreases l.len() - i,
    {
        if l[i].addr_type == addr.addr_type && slice_eq(
            l[i].address.as_slice(),
            addr.address.as_slice(),
        ) {
            proof {
                assert(same_address(l@[i as int], *addr));
            }
            return true;
        }
        i = i + 1;
    }
    false
}

/// The ticket is within its time, clock skew allowed for.
pub open spec fn spec_header_times(skew: i64, tkt: EncTicketPart, now: u32) -> Result<(), Error> {
    if now - tkt.start() < -skew {
        Err(refusal(TKT_NYV, Status::ProcessTgs))
    } else if tkt.endtime - now < -skew {
        Err(refusal(TKT_EXPIRED, Status::ProcessTgs))
    } else {
        Ok(())
    }
}

/// Judges the header ticket's times.
fn check_header_times(skew: i64, tkt: &EncTicketPart, now: u32) -> (r: Result<(), Error>)
    requires
        skew > i64::MIN,
    ensures
        r == spec_header_times(skew, *tkt, now),
{
    if (now as i64) - (tkt.start_time() as i64) < -skew {
        return Err(proto(TKT_NYV, Status::ProcessTgs));
    }
    if (tkt.endtime as i64) - (now as i64) < -skew {
        return Err(proto(TKT_EXPIRED, Status::ProcessTgs));
    }
    Ok(())
}

/// The checksum in an authenticator.
#[derive(Clone, Debug, PartialEq, Eq)]
pub struct AuthCksum {
    /// Checksum type.
    pub cksumtype: i32,
    /// The type is collision-proof.
    pub coll_proof: bool,
    /// The checksum.
    pub checksum: Vec<u8>,
}

/// An authenticator, decrypted.
pub struct Authenticator {
    /// Client.
    pub cname: PrincipalName,
    /// Client realm.
    pub crealm: String,
    /// Client time.
    pub ctime: u32,
    /// Microseconds of the client time.
    pub cusec: u32,
    /// Checksum over the request body.
    pub cksum: Option<AuthCksum>,
    /// Subkey.
    pub subkey: Option<EncryptionKey>,
    /// Authorization data.
    pub authorization_data: Option<Vec<AuthElement>>,
}

/// What the header of a TGS request says beside its ticket.
#[derive(Clone, Copy, Debug, PartialEq, Eq, Structural)]
pub struct HeaderOptions {
    /// The ticket is under a session key.
    pub use_session_key: bool,
    /// Mutual authentication is asked for.
    pub mutual_required: bool,
}

/// Microseconds lie below a million.
pub open spec fn cusec_valid(cusec: u32) -> bool {
    cusec <= 999_999
}

/// The authenticator's checksum, judged: there is one, of a type that is
/// known and collision-proof, and it is right. `outcome` is how it fared over the
/// request body.
pub open spec fn spec_auth_cksum(
    types: Seq<CksumType>,
    cksum: Option<AuthCksum>,
    outcome: CksumOutcome,
) -> Result<(), Error> {
    match cksum {
        None => Err(refusal(INAPP_CKSUM, Status::ProcessTgs)),
        Some(ck) => if cksum_form(types, ck.cksumtype) is None {
            Err(refusal(SUMTYPE_NOSUPP, Status::ProcessTgs))
        } else if !ck.coll_proof {
            Err(refusal(INAPP_CKSUM, Status::ProcessTgs))
        } else {
            match outcome {
                CksumOutcome::Good => Ok(()),
                CksumOutcome::Failed => Err(refusal(GENERIC, Status::ProcessTgs)),
                _ => Err(refusal(BAD_INTEGRITY, Status::ProcessTgs)),
            }
        },
    }
}

fn check_auth_cksum(types: &[CksumType], cksum: &Option<AuthCksum>, outcome: CksumOutcome) -> (r:
    Result<(), Error>)
    ensures
        r == spec_auth_cksum(types@, *cksum, outcome),
{
    match cksum {
        None => Err(proto(INAPP_CKSUM, Status::ProcessTgs)),
        Some(ck) => {
            if find_cksum(types, ck.cksumtype).is_none() {
                return Err(proto(SUMTYPE_NOSUPP, Status::ProcessTgs));
            }
            if !ck.coll_proof {
                return Err(proto(INAPP_CKSUM, Status::ProcessTgs));
            }
            match outcome {
                CksumOutcome::Good => Ok(()),
                CksumOutcome::Failed => Err(proto(GENERIC, Status::ProcessTgs)),
                _ => Err(proto(BAD_INTEGRITY, Status::ProcessTgs)),
            }
        },
    }
}

/// Why a header is refused.
pub enum HeaderFault {
    /// With this error.
    Refused(Error),
    /// Its ticket is good for arming a FAST layer only.
    Armor,
}

/// `e` is the error of a header that is refused.
pub open spec fn is_fault(f: HeaderFault, e: Error) -> bool {
    match f {
        HeaderFault::Refused(x) => e == x,
        HeaderFault::Armor => e matches Error::Protocol { code, text, e_data, detail } && code
            == POLICY && text == Some(Status::ProcessTgs) && e_data is None && (detail matches Some(
            d,
        ) && d@ == "ticket valid only as FAST armor"@),
    }
}

/// The header of a TGS request, judged, in the order in which it is judged:
/// options, opening the ticket and the authenticator, client, address, times,
/// armor, checksum. `opened` is what opening the two brought; `ticket_ad` the
/// ticket's authorization data as they nest; `outcome` how the authenticator's
/// checksum fared over the request body.
pub open spec fn spec_tgs_header(
    policy: Policy,
    types: Seq<CksumType>,
    options: HeaderOptions,
    opened: Result<(EncTicketPart, Authenticator), Error>,
    ticket_ad: Option<Vec<AuthElement>>,
    outcome: CksumOutcome,
    sender: Option<&HostAddress>,
    now: u32,
) -> Result<(), HeaderFault> {
    if options.use_session_key || options.mutual_required {
        Err(HeaderFault::Refused(refusal(POLICY, Status::ProcessTgs)))
    } else {
        match opened {
            Err(e) => Err(HeaderFault::Refused(e)),
            Ok((tkt, auth)) => if !cusec_valid(auth.cusec) {
                Err(HeaderFault::Refused(refusal(GENERIC, Status::ProcessTgs)))
            } else if auth.cname@.components != tkt.cname@.components || auth.crealm@
                != tkt.crealm@ {
                Err(HeaderFault::Refused(refusal(BADMATCH, Status::ProcessTgs)))
            } else if sender matches Some(a) && !address_ok(*a, tkt.caddr) {
                Err(HeaderFault::Refused(refusal(BADADDR, Status::ProcessTgs)))
            } else if spec_header_times(policy.skew, tkt, now) is Err {
                Err(HeaderFault::Refused(spec_header_times(policy.skew, tkt, now)->Err_0))
            } else {
                match spec_fx_armor_present(ticket_ad, auth.authorization_data) {
                    Err(_) => Err(HeaderFault::Refused(refusal(GENERIC, Status::ProcessTgs))),
                    Ok(true) => Err(HeaderFault::Armor),
                    Ok(false) => match spec_auth_cksum(types, auth.cksum, outcome) {
                        Err(e) => Err(HeaderFault::Refused(e)),
                        Ok(()) => Ok(()),
                    },
                }
            },
        }
    }
}

/// Judges the header of a TGS request, once its ticket and its authenticator
/// were opened, and hands the two back.
pub fn judge_tgs_header(
    policy: &Policy,
    types: &[CksumType],
    options: HeaderOptions,
    opened: Result<(EncTicketPart, Authenticator), Error>,
    ticket_ad: &Option<Vec<AuthElement>>,
    outcome: CksumOutcome,
    sender: Option<&HostAddress>,
    now: u32,
) -> (r: Result<(EncTicketPart, Authenticator), Error>)
    requires
        policy.skew > i64::MIN,
    ensures
        match spec_tgs_header(*policy, types@, options, opened, *ticket_ad, outcome, sender, now) {
            Err(f) => r matches Err(e) && is_fault(f, e),
            Ok(()) => r == opened,
        },
{
    if options.use_session_key || options.mutual_required {
        return Err(proto(POLICY, Status::ProcessTgs));
    }
    let (tkt, auth) = match opened {
        Err(e) => {
            return Err(e);
        },
        Ok(t) => t,
    };
    if auth.cusec > 999_999 {
        return Err(proto(GENERIC, Status::ProcessTgs));
    }
    if !auth.cname.components_eq(&tkt.cname) || !str_eq(auth.crealm.as_str(), tkt.crealm.as_str()) {
        return Err(proto(BADMATCH, Status::ProcessTgs));
    }
    if let Some(a) = sender {
        if !address_search(a, &tkt.caddr) {
            return Err(proto(BADADDR, Status::ProcessTgs));
        }
    }
    match check_header_times(policy.skew, &tkt, now) {
        Err(e) => {
            return Err(e);
        },
        Ok(()) => {},
    }
    match fx_armor_present(ticket_ad, &auth.authorization_data) {
        Err(_) => {
            return Err(proto(GENERIC, Status::ProcessTgs));
        },
        Ok(b) => {
            if b {
                return Err(
                    Error::Protocol {
                        code: POLICY,
                        text: Some(Status::ProcessTgs),
                        e_data: None,
                        detail: Some("ticket valid only as FAST armor".to_owned()),
                    },
                );
            }
        },
    }
    match check_auth_cksum(types, &auth.cksum, outcome) {
        Err(e) => {
            return Err(e);
        },
        Ok(()) => {},
    }
    Ok((tkt, auth))
}

/// No request is taken whose authenticator does not vouch for its body: an
/// accepted header has a right, collision-proof checksum, and its
/// authenticator is the ticket client's.
pub proof fn law_accepted_header_is_authentic(
    policy: Policy,
    types: Seq<CksumType>,
    options: HeaderOptions,
    opened: Result<(EncTicketPart, Authenticator), Error>,
    ticket_ad: Option<Vec<AuthElement>>,
    outcome: CksumOutcome,
    sender: Option<&HostAddress>,
    now: u32,
)
    requires
        spec_tgs_header(policy, types, options, opened, ticket_ad, outcome, sender, now) is Ok,
    ensures
        opened is Ok,
        ({
            let (tkt, auth) = opened->Ok_0;
            &&& auth.cksum matches Some(ck) && ck.coll_proof
            &&& outcome == CksumOutcome::Good
            &&& auth.cname@.components == tkt.cname@.components
            &&& auth.crealm@ == tkt.crealm@
            &&& tkt.endtime + policy.skew >= now
        }),
{
}

/// Whether a reply's ticket gets a PAC: never for a server without
/// authorization data, where the realm has PACs off, or for an anonymous
/// client; an initial ticket unless PA-PAC-REQUEST says no, every other where
/// the subject had one.
pub open spec fn spec_include_pac(
    policy: Policy,
    no_auth_data: bool,
    is_as_req: bool,
    requested: Option<bool>,
    subject_had_pac: bool,
    anonymous: bool,
) -> bool {
    &&& !no_auth_data
    &&& !policy.disable_pac
    &&& !anonymous
    &&& if is_as_req {
        requested matches Some(b) ==> b
    } else {
        subject_had_pac
    }
}

/// Whether a reply's ticket gets a PAC, where it is known whether the server
/// goes without authorization data.
pub fn pac_included(
    policy: &Policy,
    no_auth_data: bool,
    is_as_req: bool,
    requested: Option<bool>,
    subject_had_pac: bool,
    anonymous: bool,
) -> (r: bool)
    ensures
        r == spec_include_pac(
            *policy,
            no_auth_data,
            is_as_req,
            requested,
            subject_had_pac,
            anonymous,
        ),
{
    if no_auth_data || policy.disable_pac || anonymous {
        return false;
    }
    if is_as_req {
        match requested {
            Some(b) => b,
            None => true,
        }
    } else {
        subject_had_pac
    }
}

/// Whether a reply's ticket gets a PAC. `requested` is the flag of
/// PA-PAC-REQUEST, where that datum is there and can be read.
pub fn include_pac_for_reply(
    policy: &Policy,
    server: &Principal,
    is_as_req: bool,
    requested: Option<bool>,
    subject_had_pac: bool,
    anonymous: bool,
) -> (r: bool)
    ensures
        r == spec_include_pac(
            *policy,
            attr_set(server.attributes, KDB_NO_AUTH_DATA_REQUIRED),
            is_as_req,
            requested,
            subject_had_pac,
            anonymous,
        ),
{
    pac_included(
        policy,
        attr(server, KDB_NO_AUTH_DATA_REQUIRED),
        is_as_req,
        requested,
        subject_had_pac,
        anonymous,
    )
}

/// A known encryption type newer than des3 and rc4.
pub open spec fn needs_info2(policy: Policy, etype: i32) -> bool {
    policy.knows(etype) && crate::ad::requires_info2(etype)
}

/// Whether an encryption type is known and newer than des3 and rc4.
pub fn enctype_requires_etype_info_2(policy: &Policy, etype: i32) -> (r: bool)
    ensures
        r == needs_info2(*policy, etype),
{
    policy.etype_known(etype) && crate::ad::etype_requires_info2(etype)
}

/// The bit that asks to hide the client's name in a reply.
pub const FAST_HIDE_CLIENT_NAMES_BIT: usize = 1;

/// An option among the sixteen critical ones that is not supported.
pub open spec fn unknown_critical_option(opts: Seq<bool>) -> bool {
    exists|i: int|
        0 <= i < 16 && i < opts.len() && i != FAST_HIDE_CLIENT_NAMES_BIT && #[trigger] opts[i]
}

/// Judges the FAST options.
pub fn check_fast_options(opts: &[bool]) -> (r: Result<(), Error>)
    ensures
        r == (if unknown_critical_option(opts@) {
            Err::<(), Error>(refusal(UNKNOWN_CRITICAL_FAST_OPTION, Status::FastOption))
        } else {
            Ok(())
        }),
{
    let mut i: usize = 0;
    while i < opts.len() && i < 16
        invariant
            i <= opts.len(),
            i <= 16,
            forall|k: int| 0 <= k < i && k != FAST_HIDE_CLIENT_NAMES_BIT ==> !#[trigger] opts@[k],
        decreases opts.len() - i,
    {
        if i != FAST_HIDE_CLIENT_NAMES_BIT && opts[i] {
            proof {
                assert(opts@[i as int]);
            }
            return Err(proto(UNKNOWN_CRITICAL_FAST_OPTION, Status::FastOption));
        }
        i = i + 1;
    }
    Ok(())
}

/// The request asks to hide the client's name.
pub open spec fn hides_client(opts: Seq<bool>) -> bool {
    opts.len() > FAST_HIDE_CLIENT_NAMES_BIT && opts[FAST_HIDE_CLIENT_NAMES_BIT as int]
}

/// Whether the request asks to hide the client's name.
pub fn fast_hides_client(opts: &[bool]) -> (r: bool)
    ensures
        r == hides_client(opts@),
{
    opts.len() > FAST_HIDE_CLIENT_NAMES_BIT && opts[FAST_HIDE_CLIENT_NAMES_BIT]
}

/// A type can be that of a session key exactly where the crypto layer knows it,
/// the realm permits it, des3 and rc4 are switched on where it is one of them,
/// and the server can use it: as its own list says, or, without one, because it
/// is aes256 or the server has a permitted key of that type and no newer key.
pub proof fn law_session_type_is_usable(
    policy: Policy,
    server: Principal,
    session_enctypes: Option<Seq<i32>>,
    etype: i32,
)
    ensures
        session_enctype_ok(policy, server, session_enctypes, etype) <==> {
            &&& policy.known_enctypes@.contains(etype)
            &&& policy.permitted_enctypes@.contains(etype)
            &&& etype == 16 ==> policy.allow_des3
            &&& etype == 23 ==> policy.allow_rc4
            &&& match session_enctypes {
                Some(l) => l.contains(etype),
                None => etype == 18 || exists|i: int|
                    {
                        &&& 0 <= i < server.keys@.len()
                        &&& (#[trigger] server.keys@[i]).etype == etype
                        &&& forall|j: int|
                            0 <= j < server.keys@.len() ==> (#[trigger] server.keys@[j]).kvno
                                <= server.keys@[i].kvno
                    },
            }
        },
{
    let keys = server.keys@;
    crate::store::lemma_max_kvno(keys);
    let m = max_kvno(keys);
    if policy.permits(etype) && session_enctypes is None && etype != 18 {
        if exists|i: int|
            0 <= i < keys.len() && policy.key_matches(#[trigger] keys[i], Some(etype), m) {
            let i = choose|i: int|
                0 <= i < keys.len() && policy.key_matches(#[trigger] keys[i], Some(etype), m);
            assert(keys[i].etype == etype && keys[i].kvno == m);
        }
        if exists|i: int|
            {
                &&& 0 <= i < keys.len()
                &&& (#[trigger] keys[i]).etype == etype
                &&& forall|j: int|
                    0 <= j < keys.len() ==> (#[trigger] keys[j]).kvno <= keys[i].kvno
            } {
            let i = choose|i: int|
                {
                    &&& 0 <= i < keys.len()
                    &&& (#[trigger] keys[i]).etype == etype
                    &&& forall|j: int|
                        0 <= j < keys.len() ==> (#[trigger] keys[j]).kvno <= keys[i].kvno
                };
            if m > 0 {
                let j = choose|j: int| 0 <= j < keys.len() && keys[j].kvno == m;
                assert(keys[j].kvno <= keys[i].kvno);
            }
            assert(keys[i].kvno == m);
            assert(policy.key_matches(keys[i], Some(etype), m));
        }
    }
}

/// The key that opens tickets is permitted, of the wanted type and version, the
/// newest such and the first of these; and there is one exactly where some key is
/// permitted, of that type and of that version.
pub proof fn law_server_key_is_the_newest(
    policy: Policy,
    p: Principal,
    want: Option<i32>,
    kvno: u32,
    i: int,
    j: int,
)
    requires
        0 <= j < p.keys@.len(),
        policy.permitted_enctypes@.contains(p.keys@[j].etype),
        want matches Some(e) ==> p.keys@[j].etype == e,
        kvno == 0 || p.keys@[j].kvno == kvno,
    ensures
        !no_server_key(policy, p, want, kvno),
        is_server_key(policy, p, want, kvno, i) ==> {
            &&& 0 <= i < p.keys@.len()
            &&& policy.permitted_enctypes@.contains(p.keys@[i].etype)
            &&& want matches Some(e) ==> p.keys@[i].etype == e
            &&& kvno == 0 || p.keys@[i].kvno == kvno
            &&& p.keys@[j].kvno <= p.keys@[i].kvno
            &&& p.keys@[j].kvno == p.keys@[i].kvno ==> i <= j
        },
{
    let x = p.keys@[j];
    assert(usable_key(policy, p, want, j));
}

/// An element is found where it stands, on whichever level; an unreadable
/// container in front of it is a failure; and of two lists the second counts
/// where the first holds no such element.
pub proof fn law_element_is_found(
    a: Seq<AuthElement>,
    b: Seq<AuthElement>,
    v: Vec<AuthElement>,
    ad_type: i32,
    from_ap_req: bool,
)
    ensures
        finds_authdata(Seq::empty(), ad_type, from_ap_req) == Ok::<bool, ()>(false),
        finds_authdata(seq![AuthElement::Plain(ad_type)] + b, ad_type, false) == Ok::<bool, ()>(
            true,
        ),
        finds_authdata(seq![AuthElement::IfRelevant(None)] + b, ad_type, from_ap_req) is Err,
        finds_authdata(seq![AuthElement::IfRelevant(Some(v))], ad_type, from_ap_req)
            == finds_authdata(v@, ad_type, from_ap_req),
        finds_authdata(a, ad_type, from_ap_req) == Ok::<bool, ()>(false) ==> finds_authdata(
            a + b,
            ad_type,
            from_ap_req,
        ) == finds_authdata(b, ad_type, from_ap_req),
        finds_authdata(a, ad_type, from_ap_req) != Ok::<bool, ()>(false) ==> finds_authdata(
            a + b,
            ad_type,
            from_ap_req,
        ) == finds_authdata(a, ad_type, from_ap_req),
    decreases a.len(),
{
    reveal_with_fuel(finds_authdata, 2);
    let x = seq![AuthElement::Plain(ad_type)] + b;
    assert(x[0] == AuthElement::Plain(ad_type));
    let y = seq![AuthElement::IfRelevant(None)] + b;
    assert(y[0] == AuthElement::IfRelevant(None));
    let z = seq![AuthElement::IfRelevant(Some(v))];
    assert(z.drop_first() =~= Seq::<AuthElement>::empty());
    assert(z[0] == AuthElement::IfRelevant(Some(v)));
    if let Err(u) = finds_authdata(v@, ad_type, from_ap_req) {
        assert(u == ());
    }
    if a.len() == 0 {
        assert(a + b =~= b);
    } else {
        law_element_is_found(a.drop_first(), b, v, ad_type, from_ap_req);
        assert((a + b)[0] == a[0]);
        assert((a + b).drop_first() =~= a.drop_first() + b);
    }
}

/// A list without containers holds an element exactly where one of its elements
/// is of that type; in data from an authenticator the five types that only a KDC
/// may put there are never found.
pub proof fn law_kdc_elements_do_not_count(
    ad: Seq<AuthElement>,
    ad_type: i32,
    from_ap_req: bool,
)
    requires
        forall|i: int| 0 <= i < ad.len() ==> (#[trigger] ad[i]) is Plain,
    ensures
        finds_authdata(ad, ad_type, from_ap_req) == Ok::<bool, ()>(
            ad.contains(AuthElement::Plain(ad_type)) && !(from_ap_req && (ad_type == AD_SIGNTICKET
                || ad_type == AD_KDC_ISSUED || ad_type == AD_WIN2K_PAC || ad_type == AD_CAMMAC
                || ad_type == AD_AUTH_INDICATOR)),
        ),
    decreases ad.len(),
{
    if ad.len() > 0 {
        let t = ad.drop_first();
        assert forall|i: int| 0 <= i < t.len() implies (#[trigger] t[i]) is Plain by {
            assert(t[i] == ad[i + 1]);
        }
        law_kdc_elements_do_not_count(t, ad_type, from_ap_req);
        let x = AuthElement::Plain(ad_type);
        if ad.contains(x) {
            let i = choose|i: int| 0 <= i < ad.len() && ad[i] == x;
            if i > 0 {
                assert(t[i - 1] == x);
            }
        }
        if t.contains(x) {
            let i = choose|i: int| 0 <= i < t.len() && t[i] == x;
            assert(ad[i + 1] == x);
        }
        assert(ad[0] is Plain);
    }
}

/// A ticket is good from an address exactly where it has no addresses, has that
/// one among them, or has a single NetBIOS address.
pub proof fn law_ticket_is_good_from(addr: HostAddress, l: Vec<HostAddress>)
    ensures
        address_ok(addr, None),
        address_ok(addr, Some(l)) <==> {
            ||| l@.len() == 1 && l@[0].addr_type == ADDRTYPE_NETBIOS
            ||| exists|i: int|
                0 <= i < l@.len() && (#[trigger] l@[i]).addr_type == addr.addr_type
                    && l@[i].address@ == addr.address@
        },
{
    if exists|i: int|
        0 <= i < l@.len() && (#[trigger] l@[i]).addr_type == addr.addr_type && l@[i].address@
            == addr.address@ {
        let i = choose|i: int|
            0 <= i < l@.len() && (#[trigger] l@[i]).addr_type == addr.addr_type && l@[i].address@
                == addr.address@;
        assert(same_address(l@[i], addr));
    }
}

/// A presented ticket is within its time from as long before its start to as long
/// behind its end as clocks may differ.
pub proof fn law_ticket_is_within_its_time(skew: i64, tkt: EncTicketPart, now: u32)
    ensures
        ({
            let start = match tkt.starttime {
                Some(s) => s,
                None => tkt.authtime,
            };
            &&& spec_header_times(skew, tkt, now) is Ok <==> start - skew <= now <= tkt.endtime
                + skew
            &&& refuses(spec_header_times(skew, tkt, now), TKT_NYV, Status::ProcessTgs) <==> now
                < start - skew
            &&& refuses(spec_header_times(skew, tkt, now), TKT_EXPIRED, Status::ProcessTgs) ==> now
                > tkt.endtime + skew
            &&& spec_header_times(skew, tkt, now) is Err ==> {
                ||| refuses(spec_header_times(skew, tkt, now), TKT_NYV, Status::ProcessTgs)
                ||| refuses(spec_header_times(skew, tkt, now), TKT_EXPIRED, Status::ProcessTgs)
            }
        }),
{
}

/// The checksum of an authenticator is accepted exactly where it is there, of a
/// known and collision-proof type, and right.
pub proof fn law_authenticator_checksum_counts(
    types: Seq<CksumType>,
    cksum: Option<AuthCksum>,
    outcome: CksumOutcome,
)
    ensures
        spec_auth_cksum(types, cksum, outcome) is Ok <==> (cksum matches Some(ck) && {
            &&& cksum_form(types, ck.cksumtype) is Some
            &&& ck.coll_proof
            &&& outcome is Good
        }),
        refuses(spec_auth_cksum(types, None, outcome), INAPP_CKSUM, Status::ProcessTgs),
        cksum matches Some(ck) ==> cksum_form(types, ck.cksumtype) is None ==> refuses(
            spec_auth_cksum(types, cksum, outcome),
            SUMTYPE_NOSUPP,
            Status::ProcessTgs,
        ),
        cksum matches Some(ck) ==> cksum_form(types, ck.cksumtype) is Some && ck.coll_proof
            && outcome is Integrity ==> refuses(
            spec_auth_cksum(types, cksum, outcome),
            BAD_INTEGRITY,
            Status::ProcessTgs,
        ),
{
}

/// A header is accepted exactly where it asks neither for a session key nor for
/// mutual authentication, opens, its authenticator is the ticket's client's with
/// a sound checksum and microseconds, the ticket is good from the sender and at
/// this time, and neither is meant for armor alone.
pub proof fn law_authentic_header_is_accepted(
    policy: Policy,
    types: Seq<CksumType>,
    options: HeaderOptions,
    tkt: EncTicketPart,
    auth: Authenticator,
    ticket_ad: Option<Vec<AuthElement>>,
    outcome: CksumOutcome,
    sender: Option<&HostAddress>,
    now: u32,
    e: Error,
)
    ensures
        spec_tgs_header(
            policy,
            types,
            options,
            Ok((tkt, auth)),
            ticket_ad,
            outcome,
            sender,
            now,
        ) is Ok <==> {
            &&& !options.use_session_key
            &&& !options.mutual_required
            &&& auth.cusec < 1_000_000
            &&& auth.cname@.components == tkt.cname@.components
            &&& auth.crealm@ == tkt.crealm@
            &&& sender matches Some(a) ==> address_ok(*a, tkt.caddr)
            &&& spec_header_times(policy.skew, tkt, now) is Ok
            &&& ticket_ad matches Some(ad) ==> finds_authdata(ad@, AD_FX_ARMOR, false) == Ok::<
                bool,
                (),
            >(false)
            &&& auth.authorization_data matches Some(ad) ==> finds_authdata(
                ad@,
                AD_FX_ARMOR,
                true,
            ) == Ok::<bool, ()>(false)
            &&& spec_auth_cksum(types, auth.cksum, outcome) is Ok
        },
        spec_tgs_header(
            policy,
            types,
            (HeaderOptions { use_session_key: false, mutual_required: false }),
            Err(e),
            ticket_ad,
            outcome,
            sender,
            now,
        ) == Err::<(), HeaderFault>(HeaderFault::Refused(e)),
{
}

/// An initial ticket gets a PAC unless the request says that it wants none, and
/// a derived one exactly where its subject had one; never for a server without
/// authorization data, in a realm that has PACs off, or for an anonymous client.
pub proof fn law_pac_is_given(
    policy: Policy,
    no_auth_data: bool,
    is_as_req: bool,
    requested: Option<bool>,
    subject_had_pac: bool,
    anonymous: bool,
)
    ensures
        no_auth_data || policy.disable_pac || anonymous ==> !spec_include_pac(
            policy,
            no_auth_data,
            is_as_req,
            requested,
            subject_had_pac,
            anonymous,
        ),
        !policy.disable_pac ==> (spec_include_pac(
            policy,
            false,
            true,
            requested,
            subject_had_pac,
            false,
        ) <==> requested != Some(false)),
        !policy.disable_pac ==> (spec_include_pac(
            policy,
            false,
            false,
            requested,
            subject_had_pac,
            false,
        ) <==> subject_had_pac),
{
}

/// Of the sixteen critical FAST options the second hides the client's name and
/// every other is refused; options behind them are let pass.
pub proof fn law_critical_options(opts: Seq<bool>, i: int)
    ensures
        0 <= i < 16 && i < opts.len() && i != 1 && opts[i] ==> unknown_critical_option(opts),
        (forall|k: int| 0 <= k < 16 && k < opts.len() && k != 1 ==> !#[trigger] opts[k])
            ==> !unknown_critical_option(opts),
        hides_client(opts) <==> opts.len() >= 2 && opts[1],
{
}

} // verus!
