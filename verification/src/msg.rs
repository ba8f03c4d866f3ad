//! The parts of requests, tickets and replies that decisions read.

use crate::bytes::copy;
use crate::flags::Flags;
use crate::name::PrincipalName;
use vstd::prelude::*;

verus! {

/// PA-TGS-REQ.
pub const PA_TGS_REQ: i32 = 1;

/// PA-ENC-TIMESTAMP.
pub const PA_ENC_TIMESTAMP: i32 = 2;

/// PA-PW-SALT.
pub const PA_PW_SALT: i32 = 3;

/// PA-ETYPE-INFO.
pub const PA_ETYPE_INFO: i32 = 11;

/// PA-PK-AS-REQ.
pub const PA_PK_AS_REQ: i32 = 16;

/// PA-ETYPE-INFO2.
pub const PA_ETYPE_INFO2: i32 = 19;

/// PA-PAC-REQUEST.
pub const PA_PAC_REQUEST: i32 = 128;

/// PA-FOR-USER.
pub const PA_FOR_USER: i32 = 129;

/// PA-S4U-X509-USER.
pub const PA_FOR_X509_USER: i32 = 130;

/// PA-FX-COOKIE.
pub const PA_FX_COOKIE: i32 = 133;

/// PA-FX-FAST.
pub const PA_FX_FAST: i32 = 136;

/// PA-FX-ERROR.
pub const PA_FX_ERROR: i32 = 137;

/// PA-ENCRYPTED-CHALLENGE.
pub const PA_ENCRYPTED_CHALLENGE: i32 = 138;

/// PA-PKINIT-KX.
pub const PA_PKINIT_KX: i32 = 147;

/// PA-REQ-ENC-PA-REP.
pub const PA_REQ_ENC_PA_REP: i32 = 149;

/// PA-AS-FRESHNESS.
pub const PA_AS_FRESHNESS: i32 = 150;

/// PA-SPAKE.
pub const PA_SPAKE: i32 = 151;

/// PA-PAC-OPTIONS.
pub const PA_PAC_OPTIONS: i32 = 167;

/// AD-IF-RELEVANT.
pub const AD_IF_RELEVANT: i32 = 1;

/// AD-KDC-ISSUED.
pub const AD_KDC_ISSUED: i32 = 4;

/// AD-MANDATORY-FOR-KDC.
pub const AD_MANDATORY_FOR_KDC: i32 = 8;

/// AD-FX-ARMOR.
pub const AD_FX_ARMOR: i32 = 71;

/// AD-CAMMAC.
pub const AD_CAMMAC: i32 = 96;

/// AD-AUTHENTICATION-INDICATOR.
pub const AD_AUTH_INDICATOR: i32 = 97;

/// AD-WIN2K-PAC.
pub const AD_WIN2K_PAC: i32 = 128;

/// AD-SIGNTICKET.
pub const AD_SIGNTICKET: i32 = 512;

/// IPv4 address type.
pub const ADDRTYPE_INET: i32 = 2;

/// NetBIOS address type.
pub const ADDRTYPE_NETBIOS: i32 = 20;

/// IPv6 address type.
pub const ADDRTYPE_INET6: i32 = 24;

/// AS-REQ message type.
pub const MSG_AS_REQ: i32 = 10;

/// AS-REP message type.
pub const MSG_AS_REP: i32 = 11;

/// TGS-REQ message type.
pub const MSG_TGS_REQ: i32 = 12;

/// TGS-REP message type.
pub const MSG_TGS_REP: i32 = 13;

/// Protocol version.
pub const PVNO: i32 = 5;

/// A pre-authentication datum.
#[derive(Clone, Debug, PartialEq, Eq)]
pub struct PaData {
    /// Type.
    pub padata_type: i32,
    /// Value.
    pub padata_value: Vec<u8>,
}

/// An authorization datum.
#[derive(Clone, Debug, PartialEq, Eq)]
pub struct AuthDatum {
    /// Type.
    pub ad_type: i32,
    /// Value.
    pub ad_data: Vec<u8>,
}

/// A network address.
#[derive(Clone, Debug, PartialEq, Eq)]
pub struct HostAddress {
    /// Address type.
    pub addr_type: i32,
    /// Address octets.
    pub address: Vec<u8>,
}

/// A key as it travels in messages.
#[derive(Clone, Debug, PartialEq, Eq)]
pub struct EncryptionKey {
    /// Encryption type.
    pub keytype: i32,
    /// Key octets.
    pub keyvalue: Vec<u8>,
}

/// A key's type and octets.
pub open spec fn key_octets(k: EncryptionKey) -> (i32, Seq<u8>) {
    (k.keytype, k.keyvalue@)
}

impl EncryptionKey {
    /// A copy.
    pub fn copy(&self) -> (r: EncryptionKey)
        ensures
            key_octets(r) == key_octets(*self),
    {
        EncryptionKey { keytype: self.keytype, keyvalue: copy(self.keyvalue.as_slice()) }
    }
}

/// Addresses, each with its type and octets.
pub open spec fn address_octets(v: Option<Vec<HostAddress>>) -> Option<Seq<(i32, Seq<u8>)>> {
    match v {
        Some(l) => Some(l@.map_values(|a: HostAddress| (a.addr_type, a.address@))),
        None => None,
    }
}

/// A copy of addresses.
pub fn copy_addresses(v: &Option<Vec<HostAddress>>) -> (r: Option<Vec<HostAddress>>)
    ensures
        address_octets(r) == address_octets(*v),
{
    match v {
        Some(l) => copy_listed(Some(l)),
        None => None,
    }
}

/// Addresses that may be there, each with its type and octets.
pub open spec fn listed_octets(v: Option<&Vec<HostAddress>>) -> Option<Seq<(i32, Seq<u8>)>> {
    match v {
        Some(l) => Some(l@.map_values(|a: HostAddress| (a.addr_type, a.address@))),
        None => None,
    }
}

/// A copy of addresses that may be there.
pub fn copy_listed(v: Option<&Vec<HostAddress>>) -> (r: Option<Vec<HostAddress>>)
    ensures
        address_octets(r) == listed_octets(v),
{
    let l = match v {
        Some(l) => l,
        None => {
            return None;
        },
    };
    let mut out: Vec<HostAddress> = Vec::new();
    let mut i: usize = 0;
    while i < l.len()
        invariant
            i <= l.len(),
            out@.len() == i,
            forall|k: int|
                0 <= k < i ==> (#[trigger] out@[k]).addr_type == l@[k].addr_type
                    && out@[k].address@ == l@[k].address@,
        decreases l.len() - i,
    {
        out.push(
            HostAddress { addr_type: l[i].addr_type, address: copy(l[i].address.as_slice()) },
        );
        i = i + 1;
    }
    proof {
        assert(out@.map_values(|a: HostAddress| (a.addr_type, a.address@)) =~= l@.map_values(
            |a: HostAddress| (a.addr_type, a.address@),
        ));
    }
    Some(out)
}

/// Encrypted data as it travels in messages.
#[derive(Clone, Debug, PartialEq, Eq)]
pub struct EncryptedData {
    /// Encryption type.
    pub etype: i32,
    /// Key version.
    pub kvno: Option<u32>,
    /// Ciphertext.
    pub cipher: Vec<u8>,
}

/// The transited-realms field of a ticket.
#[derive(Clone, Debug, PartialEq, Eq)]
pub struct TransitedEncoding {
    /// Encoding type.
    pub tr_type: i32,
    /// Contents.
    pub contents: Vec<u8>,
}

/// The body of a request. Times are seconds since 1970.
#[derive(Clone, Debug, PartialEq, Eq)]
pub struct KdcReqBody {
    /// Options.
    pub kdc_options: Flags,
    /// Client.
    pub cname: Option<PrincipalName>,
    /// Realm.
    pub realm: String,
    /// Server.
    pub sname: Option<PrincipalName>,
    /// Requested start.
    pub from: Option<u32>,
    /// Requested end (0: as late as possible).
    pub till: u32,
    /// Requested renewal end.
    pub rtime: Option<u32>,
    /// Nonce.
    pub nonce: u32,
    /// Encryption types in order of preference.
    pub etype: Vec<i32>,
    /// Requested addresses.
    pub addresses: Option<Vec<HostAddress>>,
}

/// A ticket. Its encrypted part stands apart.
#[derive(Clone, Debug, PartialEq, Eq)]
pub struct Ticket {
    /// Ticket version.
    pub tkt_vno: i32,
    /// Server realm.
    pub realm: String,
    /// Server.
    pub sname: PrincipalName,
    /// Encrypted part.
    pub enc_part: EncryptedData,
}

/// The encrypted part of a ticket. Times are seconds since 1970.
#[derive(Clone, Debug, PartialEq, Eq)]
pub struct EncTicketPart {
    /// Flags.
    pub flags: Flags,
    /// Session key.
    pub key: EncryptionKey,
    /// Client realm.
    pub crealm: String,
    /// Client.
    pub cname: PrincipalName,
    /// Transited realms.
    pub transited: TransitedEncoding,
    /// Time of initial authentication.
    pub authtime: u32,
    /// Start, where it is not the time of initial authentication.
    pub starttime: Option<u32>,
    /// End.
    pub endtime: u32,
    /// Renewal end.
    pub renew_till: Option<u32>,
    /// Addresses.
    pub caddr: Option<Vec<HostAddress>>,
    /// Authorization data.
    pub authorization_data: Option<Vec<AuthDatum>>,
}

impl EncTicketPart {
    /// The start of the ticket's life.
    pub open spec fn start(&self) -> u32 {
        match self.starttime {
            Some(t) => t,
            None => self.authtime,
        }
    }

    /// The start of the ticket's life.
    pub fn start_time(&self) -> (r: u32)
        ensures
            r == self.start(),
    {
        match self.starttime {
            Some(t) => t,
            None => self.authtime,
        }
    }
}

/// The place of the first datum of type `ty`, or the length where there is
/// none.
pub open spec fn pa_position(pas: Seq<PaData>, ty: i32) -> int
    decreases pas.len(),
{
    if pas.len() == 0 {
        0
    } else if pas[0].padata_type == ty {
        0
    } else {
        1 + pa_position(pas.drop_first(), ty)
    }
}

/// Whether there is a datum of type `ty`.
pub open spec fn has_pa(pas: Seq<PaData>, ty: i32) -> bool {
    exists|i: int| 0 <= i < pas.len() && (#[trigger] pas[i]).padata_type == ty
}

/// `pa_position` is the first place of the type.
pub proof fn lemma_pa_position(pas: Seq<PaData>, ty: i32)
    ensures
        0 <= pa_position(pas, ty) <= pas.len(),
        pa_position(pas, ty) < pas.len() ==> pas[pa_position(pas, ty)].padata_type == ty,
        forall|k: int| 0 <= k < pa_position(pas, ty) ==> (#[trigger] pas[k]).padata_type != ty,
        has_pa(pas, ty) == (pa_position(pas, ty) < pas.len()),
    decreases pas.len(),
{
    if pas.len() > 0 && pas[0].padata_type != ty {
        let t = pas.drop_first();
        lemma_pa_position(t, ty);
        assert forall|k: int| 0 <= k < pa_position(pas, ty) implies (
        #[trigger] pas[k]).padata_type != ty by {
            if k > 0 {
                assert(t[k - 1] == pas[k]);
            }
        }
        if has_pa(pas, ty) {
            let i = choose|i: int| 0 <= i < pas.len() && (#[trigger] pas[i]).padata_type == ty;
            assert(t[i - 1] == pas[i]);
        }
        if pa_position(t, ty) < t.len() {
            assert(pas[pa_position(t, ty) + 1] == t[pa_position(t, ty)]);
        }
    } else if pas.len() > 0 {
        assert(pas[0].padata_type == ty);
    }
}

/// The place of the first datum of type `ty`.
pub fn find_pa(pas: &[PaData], ty: i32) -> (r: Option<usize>)
    ensures
        match r {
            Some(i) => i < pas.len() && i == pa_position(pas@, ty) && has_pa(pas@, ty),
            None => pa_position(pas@, ty) == pas.len() && !has_pa(pas@, ty),
        },
{
    proof {
        lemma_pa_position(pas@, ty);
    }
    let mut i: usize = 0;
    while i < pas.len()
        invariant
            i <= pas.len(),
            forall|k: int| 0 <= k < i ==> (#[trigger] pas@[k]).padata_type != ty,
        decreases pas.len() - i,
    {
        if pas[i].padata_type == ty {
            proof {
                lemma_pa_position(pas@, ty);
                let p = pa_position(pas@, ty);
                assert(p <= i) by {
                    if p > i {
                        assert(pas@[i as int].padata_type != ty);
                    }
                }
                assert(p >= i) by {
                    if p < i {
                        assert(pas@[p].padata_type != ty);
                    }
                }
            }
            return Some(i);
        }
        i = i + 1;
    }
    proof {
        let p = pa_position(pas@, ty);
        if p < pas@.len() {
            assert(pas@[p].padata_type != ty);
        }
    }
    None
}

/// The place of a datum is that of the first of its type, whatever stands behind
/// it.
pub proof fn law_first_datum_is_found(before: Seq<PaData>, d: PaData, behind: Seq<PaData>)
    requires
        forall|i: int|
            0 <= i < before.len() ==> (#[trigger] before[i]).padata_type != d.padata_type,
    ensures
        pa_position(before + seq![d] + behind, d.padata_type) == before.len(),
        has_pa(before + seq![d] + behind, d.padata_type),
        !has_pa(before, d.padata_type),
    decreases before.len(),
{
    let all = before + seq![d] + behind;
    assert(all[before.len() as int] == d);
    if before.len() > 0 {
        let t = before.drop_first();
        assert forall|i: int| 0 <= i < t.len() implies (#[trigger] t[i]).padata_type
            != d.padata_type by {
            assert(t[i] == before[i + 1]);
        }
        law_first_datum_is_found(t, d, behind);
        assert(all[0] == before[0]);
        assert(all.drop_first() =~= t + seq![d] + behind);
    }
}

} // verus!
