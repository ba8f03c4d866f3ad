//! The principal that stands for the master key.

use crate::name::{NameView, PrincipalName, NT_PRINCIPAL};
use crate::text::views;
use vstd::prelude::*;
use vstd::string::*;

verus! {

/// aes256-cts-hmac-sha384-192.
pub const AES256_CTS_HMAC_SHA384_192: i32 = 20;

/// The first component of the master principal.
pub const MASTER_FIRST: &'static str = "K";

/// The second component of the master principal.
pub const MASTER_SECOND: &'static str = "M";

/// The name `K/M`.
pub open spec fn master_view() -> NameView {
    NameView { name_type: NT_PRINCIPAL, components: seq![MASTER_FIRST@, MASTER_SECOND@] }
}

/// The name `K/M`.
pub fn master_name() -> (r: PrincipalName)
    ensures
        r@ == master_view(),
{
    let mut v: Vec<String> = Vec::new();
    v.push(MASTER_FIRST.to_owned());
    v.push(MASTER_SECOND.to_owned());
    proof {
        assert(views(v@) =~= seq![MASTER_FIRST@, MASTER_SECOND@]);
    }
    PrincipalName { name_type: NT_PRINCIPAL, name_string: v }
}

/// The salt of the master key of a realm, where it is made out of a password.
pub fn master_salt(realm: &str) -> (r: Vec<u8>)
    ensures
        r@ == master_view().salt(realm@),
{
    master_name().default_salt(realm)
}

/// The encryption type of a master key that is made out of a password.
pub fn harness_master_etype() -> (r: i32)
    ensures
        r == AES256_CTS_HMAC_SHA384_192,
{
    AES256_CTS_HMAC_SHA384_192
}

} // verus!
