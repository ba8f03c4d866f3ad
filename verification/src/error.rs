//! KDC and admin errors.

use crate::num::{decimal_int, push_signed};
use vstd::prelude::*;
use vstd::string::*;

verus! {

/// KDC_ERR_NAME_EXP.
pub const NAME_EXP: i32 = 1;

/// KDC_ERR_SERVICE_EXP.
pub const SERVICE_EXP: i32 = 2;

/// KDC_ERR_C_PRINCIPAL_UNKNOWN.
pub const C_PRINCIPAL_UNKNOWN: i32 = 6;

/// KDC_ERR_S_PRINCIPAL_UNKNOWN.
pub const S_PRINCIPAL_UNKNOWN: i32 = 7;

/// KDC_ERR_CANNOT_POSTDATE.
pub const CANNOT_POSTDATE: i32 = 10;

/// KDC_ERR_NEVER_VALID.
pub const NEVER_VALID: i32 = 11;

/// KDC_ERR_POLICY.
pub const POLICY: i32 = 12;

/// KDC_ERR_BADOPTION.
pub const BADOPTION: i32 = 13;

/// KDC_ERR_ETYPE_NOSUPP.
pub const ETYPE_NOSUPP: i32 = 14;

/// KDC_ERR_SUMTYPE_NOSUPP.
pub const SUMTYPE_NOSUPP: i32 = 15;

/// KDC_ERR_PADATA_TYPE_NOSUPP.
pub const PADATA_TYPE_NOSUPP: i32 = 16;

/// KDC_ERR_TRTYPE_NOSUPP.
pub const TRTYPE_NOSUPP: i32 = 17;

/// KDC_ERR_CLIENT_REVOKED.
pub const CLIENT_REVOKED: i32 = 18;

/// KDC_ERR_TGT_REVOKED.
pub const TGT_REVOKED: i32 = 20;

/// KDC_ERR_KEY_EXPIRED.
pub const KEY_EXPIRED: i32 = 23;

/// KDC_ERR_PREAUTH_FAILED.
pub const PREAUTH_FAILED: i32 = 24;

/// KDC_ERR_PREAUTH_REQUIRED.
pub const PREAUTH_REQUIRED: i32 = 25;

/// KDC_ERR_SERVER_NOMATCH.
pub const SERVER_NOMATCH: i32 = 26;

/// KDC_ERR_MUST_USE_USER2USER.
pub const MUST_USE_USER2USER: i32 = 27;

/// KDC_ERR_SVC_UNAVAILABLE.
pub const SVC_UNAVAILABLE: i32 = 29;

/// KRB_AP_ERR_BAD_INTEGRITY.
pub const BAD_INTEGRITY: i32 = 31;

/// KRB_AP_ERR_TKT_EXPIRED.
pub const TKT_EXPIRED: i32 = 32;

/// KRB_AP_ERR_TKT_NYV.
pub const TKT_NYV: i32 = 33;

/// KRB_AP_ERR_REPEAT.
pub const REPEAT: i32 = 34;

/// KRB_AP_ERR_NOT_US.
pub const NOT_US: i32 = 35;

/// KRB_AP_ERR_BADMATCH.
pub const BADMATCH: i32 = 36;

/// KRB_AP_ERR_SKEW.
pub const SKEW: i32 = 37;

/// KRB_AP_ERR_BADADDR.
pub const BADADDR: i32 = 38;

/// KRB_AP_ERR_MODIFIED.
pub const MODIFIED: i32 = 41;

/// KRB_AP_ERR_ILL_CR_TKT.
pub const ILL_CR_TKT: i32 = 44;

/// KRB_AP_ERR_INAPP_CKSUM.
pub const INAPP_CKSUM: i32 = 50;

/// KRB_ERR_RESPONSE_TOO_BIG.
pub const RESPONSE_TOO_BIG: i32 = 52;

/// KRB_ERR_GENERIC.
pub const GENERIC: i32 = 60;

/// KRB_ERR_FIELD_TOOLONG.
pub const FIELD_TOOLONG: i32 = 61;

/// KDC_ERR_PREAUTH_EXPIRED.
pub const PREAUTH_EXPIRED: i32 = 90;

/// KDC_ERR_MORE_PREAUTH_DATA_REQUIRED.
pub const MORE_PREAUTH_DATA_REQUIRED: i32 = 91;

/// KDC_ERR_UNKNOWN_CRITICAL_FAST_OPTION.
pub const UNKNOWN_CRITICAL_FAST_OPTION: i32 = 93;

/// The request gets no reply at all. Never on the wire.
pub const DISCARD: i32 = -1;

/// The status word that goes with a refusal, on the wire and in the log.
#[derive(Clone, Copy, Debug, PartialEq, Eq, Structural)]
pub enum Status {
    AddToTransitedList,
    AnonymousNotAllowed,
    BadEncryptionType,
    BadEtypeIn2ndTkt,
    BadTgsServerInstance,
    BadTgsServerName,
    BadTransit,
    CantFindClientKey,
    CantProxyTgt,
    ClientExpired,
    ClientKeyExpired,
    ClientLockedOut,
    ClientNotFound,
    DecodePaForUser,
    DecodePaS4uX509User,
    DupSkeyDisallowed,
    EvidenceTicketMismatch,
    EvidenceTktNotForwardable,
    FastOption,
    FindingServerKey,
    GetAuthIndicators,
    GetLocalTgt,
    HandleAuthdata,
    HeaderPac,
    HigherAuthenticationRequired,
    InvalidAsOptions,
    InvalidLineage,
    InvalidS4u2proxyOptions,
    InvalidS4u2selfChecksum,
    InvalidS4u2selfOptions,
    InvalidS4u2selfRequest,
    InvalidS4u2selfRequestServerMismatch,
    InvalidXrealmS4u2selfRequest,
    Kdcpolicy,
    LookingUpClient,
    LookingUpS4u2selfPrincipal,
    LookingUpServer,
    NeededHwPreauth,
    NeededPreauth,
    No2ndTkt,
    NoHwPreauth,
    NonPostdatableTicket,
    NonRenewableTicket,
    NoPreauth,
    NotAllowedToDelegate,
    NotCrossRealmRequest,
    NotYetValid,
    NullClient,
    NullServer,
    PostdateNotAllowed,
    PreauthFailed,
    ProcessTgs,
    RbcdPacPrinc,
    RenewServerMismatch,
    RequiredPwchange,
    S4u2proxyCrossStktPac,
    S4u2proxyHeaderPac,
    S4u2proxyLocalStktPac,
    S4u2proxyNoHeaderPac,
    S4u2proxyNoStktPac,
    S4u2selfClientNotOurs,
    S4u2selfForeignPacClient,
    S4u2selfLocalPacClient,
    S4u2selfNoPac,
    SecondTktDecrypt,
    SecondTktMismatch,
    SecondTktNotTgs,
    SecondTktPac,
    SecondTktServer,
    ServerLockedOut,
    ServerNotAllowed,
    ServerNotFound,
    ServiceExpired,
    ServiceLockedOut,
    ServiceNotAllowed,
    TgtBasedNotAllowed,
    TgtNotForwardable,
    TgtNotPostdatable,
    TgtNotProxiable,
    TicketNotRenewable,
    TicketNotValid,
    TktExpired,
    UnknownReason,
    UnknownS4u2selfPrincipal,
    UnknownServer,
    UnsupportedS4u2proxyRequest,
    ValidateAnonymousPrincipal,
    ValidateMessageType,
    ValidateTransitType,
    ValidateValidTicket,
    XrealmEvidenceTicketMismatch,
}

/// Failure from issue, ACL, or the principal store.
#[allow(inconsistent_fields)]
#[derive(Clone, Debug, PartialEq, Eq)]
pub enum Error {
    /// Crypto layer.
    Crypto(String),
    /// DER codec.
    Asn1(String),
    /// KRB-ERROR / KDC error code.
    Protocol {
        /// Error code.
        code: i32,
        /// Status word.
        text: Option<Status>,
        /// Optional KRB-ERROR `e-data`.
        e_data: Option<Vec<u8>>,
        /// Text for the log (not on the wire).
        detail: Option<String>,
    },
    /// Actor is not permitted this admin operation.
    AclDenied,
    /// kadm5.acl load failed.
    AclParse(String),
    /// Principal already exists.
    AlreadyExists,
    /// Principal is not in the store.
    NotFound,
    /// CSPRNG failed.
    Rng,
    /// Password rejected by named policy.
    PasswordPolicy(String),
    /// Request PDU was not AS-REQ or TGS-REQ.
    UnexpectedPdu,
    /// Client must retry with pre-authentication; `e_data` is METHOD-DATA.
    PreauthRequired {
        /// DER METHOD-DATA.
        e_data: Vec<u8>,
    },
}

/// The refusal with this code and status word, and nothing else.
pub open spec fn refusal(code: i32, status: Status) -> Error {
    Error::Protocol { code, text: Some(status), e_data: None, detail: None }
}

/// The refusal with this code and status word, and nothing else.
pub fn proto(code: i32, status: Status) -> (r: Error)
    ensures
        r == refusal(code, status),
{
    Error::Protocol { code, text: Some(status), e_data: None, detail: None }
}

/// `r` is the refusal with this code and status word.
pub open spec fn refuses<T>(r: Result<T, Error>, code: i32, status: Status) -> bool {
    r == Err::<T, Error>(
        Error::Protocol { code, text: Some(status), e_data: None, detail: None },
    )
}

/// `e` is the refusal with this code, status word and text for the log.
pub open spec fn is_detailed(e: Error, code: i32, status: Status, text: Seq<char>) -> bool {
    e matches Error::Protocol { code: c, text: t, e_data: None, detail: Some(d) } && c == code && t
        == Some(status) && d@ == text
}

/// The refusal with this code and status word, and a text for the log.
pub fn proto_detail(code: i32, status: Status, text: String) -> (r: Error)
    ensures
        is_detailed(r, code, status, text@),
{
    Error::Protocol { code, text: Some(status), e_data: None, detail: Some(text) }
}

/// `e` under the status word `status`; a failure that is no protocol error
/// has none and stays as it is.
pub open spec fn spec_with_status(e: Error, status: Status) -> Error {
    match e {
        Error::Protocol { code, text, e_data, detail } => Error::Protocol {
            code,
            text: Some(status),
            e_data,
            detail,
        },
        other => other,
    }
}

/// Replaces the status word of a protocol error.
pub fn with_status(e: Error, status: Status) -> (r: Error)
    ensures
        r == spec_with_status(e, status),
{
    match e {
        Error::Protocol { code, text: _, e_data, detail } => Error::Protocol {
            code,
            text: Some(status),
            e_data,
            detail,
        },
        other => other,
    }
}

/// The code that goes out for `code`: only 0 to 128 are protocol codes, and
/// anything else is KRB_ERR_GENERIC.
pub open spec fn spec_errcode_to_protocol(code: i32) -> i32 {
    if 0 <= code <= 128 {
        code
    } else {
        GENERIC
    }
}

/// The protocol code that goes out for `code`.
pub fn errcode_to_protocol(code: i32) -> (r: i32)
    ensures
        r == spec_errcode_to_protocol(code),
{
    if 0 <= code && code <= 128 {
        code
    } else {
        GENERIC
    }
}

impl Error {
    /// The text of a failure; `word` is the text of its status word, where
    /// it has one.
    pub open spec fn spec_message(&self, word: Seq<char>) -> Seq<char> {
        match self {
            Error::Crypto(s) => "crypto: "@ + s@,
            Error::Asn1(s) => "asn1: "@ + s@,
            Error::Protocol { code, text, .. } => match text {
                Some(_) => "KDC error "@ + decimal_int(*code as int) + ": "@ + word,
                None => "KDC error "@ + decimal_int(*code as int),
            },
            Error::AclDenied => "ACL denied"@,
            Error::AclParse(s) => "ACL parse: "@ + s@,
            Error::AlreadyExists => "principal exists"@,
            Error::NotFound => "principal not found"@,
            Error::Rng => "rng failed"@,
            Error::PasswordPolicy(s) => "password policy: "@ + s@,
            Error::UnexpectedPdu => "unexpected PDU"@,
            Error::PreauthRequired { .. } => "preauth required"@,
        }
    }

    /// The text of a failure.
    pub fn message(&self, word: &str) -> (r: String)
        ensures
            r@ == self.spec_message(word@),
    {
        match self {
            Error::Crypto(s) => joined("crypto: ", s.as_str()),
            Error::Asn1(s) => joined("asn1: ", s.as_str()),
            Error::Protocol { code, text, .. } => {
                let mut out = "KDC error ".to_owned();
                push_signed(&mut out, *code as i64);
                match text {
                    Some(_) => {
                        out.append(": ");
                        out.append(word);
                        out
                    },
                    None => out,
                }
            },
            Error::AclDenied => "ACL denied".to_owned(),
            Error::AclParse(s) => joined("ACL parse: ", s.as_str()),
            Error::AlreadyExists => "principal exists".to_owned(),
            Error::NotFound => "principal not found".to_owned(),
            Error::Rng => "rng failed".to_owned(),
            Error::PasswordPolicy(s) => joined("password policy: ", s.as_str()),
            Error::UnexpectedPdu => "unexpected PDU".to_owned(),
            Error::PreauthRequired { .. } => "preauth required".to_owned(),
        }
    }
}

/// `a` and `b` behind it.
fn joined(a: &str, b: &str) -> (r: String)
    ensures
        r@ == a@ + b@,
{
    let mut out = a.to_owned();
    out.append(b);
    out
}

/// A refusal under another status word keeps its code, its data and its text for
/// the log; a failure that is no refusal stays as it is.
pub proof fn law_status_word_is_put_on(
    code: i32,
    text: Option<Status>,
    e_data: Option<Vec<u8>>,
    detail: Option<String>,
    status: Status,
    e: Error,
)
    ensures
        spec_with_status(Error::Protocol { code, text, e_data, detail }, status)
            == (Error::Protocol { code, text: Some(status), e_data, detail }),
        !(e is Protocol) ==> spec_with_status(e, status) == e,
{
}

/// A code that the protocol knows goes out as it is, and any other as the general
/// one, which is itself one that the protocol knows.
pub proof fn law_codes_go_out(code: i32)
    ensures
        0 <= spec_errcode_to_protocol(code) <= 128,
        0 <= code <= 128 ==> spec_errcode_to_protocol(code) == code,
        code < 0 || code > 128 ==> spec_errcode_to_protocol(code) == 60,
{
}

} // verus!
