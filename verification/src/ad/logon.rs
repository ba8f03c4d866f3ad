//! The logon information of a presented ticket, on its way into the next one.

use crate::ad::{filter_cross_realm_logon, law_no_local_sid_left, logon_filtered, LogonSids};
use crate::bytes::copy;
use crate::error::{is_detailed, proto_detail, Error, Status, POLICY};
use crate::text::{concat, str_eq};
use vstd::prelude::*;

verus! {

/// What stands in the log before the fault of foreign logon information.
pub const CROSS_REALM_PAC: &'static str = "cross-realm PAC: ";

/// What comes of foreign logon information that was read: what the filter leaves
/// is written in its place.
pub open spec fn foreign_logon_result<N: Fn(&Vec<u8>, &LogonSids) -> Vec<u8>>(
    logon: Vec<u8>,
    sids: LogonSids,
    write: N,
    r: Result<Vec<u8>, Error>,
) -> bool {
    exists|f: Result<LogonSids, Error>| #[trigger]
        logon_filtered(sids, f) && (match f {
            Err(e) => r matches Err(x) && x == e,
            Ok(kept) => r matches Ok(v) && call_ensures(write, (&logon, &kept), v),
        })
}

/// What is passed on of the logon information of a ticket from `header_realm`:
/// all of it where that realm is the local one, else what the filter leaves.
pub open spec fn passed_logon_result<
    R: Fn(&Vec<u8>) -> Result<LogonSids, String>,
    N: Fn(&Vec<u8>, &LogonSids) -> Vec<u8>,
>(
    header_realm: Seq<char>,
    realm: Seq<char>,
    logon: Vec<u8>,
    read: R,
    write: N,
    r: Result<Vec<u8>, Error>,
) -> bool {
    if header_realm == realm {
        r matches Ok(v) && v@ == logon@
    } else {
        exists|l: Result<LogonSids, String>| #[trigger]
            call_ensures(read, (&logon,), l) && (match l {
                Err(t) => r matches Err(e) && is_detailed(
                    e,
                    POLICY,
                    Status::InvalidLineage,
                    CROSS_REALM_PAC@ + t@,
                ),
                Ok(sids) => foreign_logon_result(logon, sids, write, r),
            })
    }
}

/// What is passed on of the logon information of a ticket from `header_realm`.
/// `read` finds its identifiers, or says what is wrong with it, and `write`
/// writes it with other identifiers.
pub fn passed_logon<
    R: Fn(&Vec<u8>) -> Result<LogonSids, String>,
    N: Fn(&Vec<u8>, &LogonSids) -> Vec<u8>,
>(header_realm: &str, realm: &str, logon: &Vec<u8>, read: &R, write: &N) -> (r: Result<
    Vec<u8>,
    Error,
>)
    requires
        forall|x: Vec<u8>| #[trigger] call_requires(*read, (&x,)),
        forall|x: Vec<u8>, l: LogonSids| #[trigger] call_requires(*write, (&x, &l)),
    ensures
        passed_logon_result(header_realm@, realm@, *logon, *read, *write, r),
{
    if str_eq(header_realm, realm) {
        return Ok(copy(logon.as_slice()));
    }
    let l = read(logon);
    assert(call_ensures(*read, (logon,), l));
    match l {
        Err(t) => Err(
            proto_detail(POLICY, Status::InvalidLineage, concat(CROSS_REALM_PAC, t.as_str())),
        ),
        Ok(sids) => {
            let ghost before = sids;
            let f = filter_cross_realm_logon(sids);
            assert(logon_filtered(before, f));
            let r = match f {
                Err(e) => Err(e),
                Ok(kept) => Ok(write(logon, &kept)),
            };
            assert(foreign_logon_result(*logon, before, *write, r));
            r
        },
    }
}

/// No identifier of the local domain is in these.
pub open spec fn all_foreign(l: LogonSids) -> bool {
    &&& !l.domain.local
    &&& forall|i: int| 0 <= i < l.extra@.len() ==> !(#[trigger] l.extra@[i]).local
    &&& l.resource_domain matches Some(d) ==> !d.local
}

/// What is passed on of the logon information of a foreign ticket is written with
/// identifiers none of which is of the local domain.
pub proof fn law_foreign_logon_is_filtered<
    R: Fn(&Vec<u8>) -> Result<LogonSids, String>,
    N: Fn(&Vec<u8>, &LogonSids) -> Vec<u8>,
>(
    header_realm: Seq<char>,
    realm: Seq<char>,
    logon: Vec<u8>,
    read: R,
    write: N,
    v: Vec<u8>,
)
    requires
        header_realm != realm,
        passed_logon_result(header_realm, realm, logon, read, write, Ok(v)),
    ensures
        exists|kept: LogonSids|
            all_foreign(kept) && #[trigger] call_ensures(write, (&logon, &kept), v),
{
    let l = choose|l: Result<LogonSids, String>| #[trigger]
        call_ensures(read, (&logon,), l) && (match l {
            Err(t) => false,
            Ok(sids) => foreign_logon_result(logon, sids, write, Ok(v)),
        });
    let sids = l->Ok_0;
    let f = choose|f: Result<LogonSids, Error>| #[trigger]
        logon_filtered(sids, f) && (match f {
            Err(_) => false,
            Ok(kept) => call_ensures(write, (&logon, &kept), v),
        });
    let kept = f->Ok_0;
    assert forall|i: int| 0 <= i < kept.extra@.len() implies !(#[trigger] kept.extra@[i]).local by {
        law_no_local_sid_left(sids.extra@, i);
    }
    assert(all_foreign(kept) && call_ensures(write, (&logon, &kept), v));
}

/// The logon information of a ticket of this realm is passed on as it is. That of
/// a foreign one is refused where it speaks for the local domain, and passed on,
/// filtered, where it does not.
pub proof fn law_logon_is_passed<
    R: Fn(&Vec<u8>) -> Result<LogonSids, String>,
    N: Fn(&Vec<u8>, &LogonSids) -> Vec<u8>,
>(
    header_realm: Seq<char>,
    realm: Seq<char>,
    logon: Vec<u8>,
    read: R,
    write: N,
    r: Result<Vec<u8>, Error>,
)
    requires
        passed_logon_result(header_realm, realm, logon, read, write, r),
    ensures
        header_realm == realm ==> (r matches Ok(v) && v@ == logon@),
        header_realm != realm && (forall|l: Result<LogonSids, String>| #[trigger]
            call_ensures(read, (&logon,), l) ==> (l matches Ok(s) && !s.domain.local)) ==> r is Ok,
        header_realm != realm && (forall|l: Result<LogonSids, String>| #[trigger]
            call_ensures(read, (&logon,), l) ==> (l matches Ok(s) && s.domain.local)) ==> (r
            matches Err(Error::Protocol { code, text, .. }) && code == POLICY && text == Some(
            Status::InvalidLineage,
        )),
        header_realm != realm && (forall|l: Result<LogonSids, String>| #[trigger]
            call_ensures(read, (&logon,), l) ==> l is Err) ==> (r matches Err(
            Error::Protocol { code, text, .. },
        ) && code == POLICY && text == Some(Status::InvalidLineage)),
{
}

} // verus!
