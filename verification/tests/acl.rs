use krb5_kdc::acl::{op_name, Acl, AdminOp};
use krb5_kdc::error::Error;
use krb5_kdc::store::{
    Principal, KDB_DISALLOW_ALL_TIX, KDB_DISALLOW_SVR, KDB_REQUIRES_PRE_AUTH,
};

#[test]
fn acl_uppercase_letter_revokes() {
    let acl = Acl::parse("admin@KERBER.TEST *D\n").unwrap();
    assert!(acl.check("admin@KERBER.TEST", AdminOp::Create, None).is_ok());
    assert_eq!(
        acl.check("admin@KERBER.TEST", AdminOp::Delete, None).unwrap_err(),
        Error::AclDenied
    );
    assert!(acl.check("admin@KERBER.TEST", AdminOp::Inquire, None).is_ok());
}

#[test]
fn acl_unknown_op_letter_is_load_error() {
    let err = Acl::parse("bad@KERBER.TEST aZ\n").unwrap_err();
    assert!(err.message("").contains("Unrecognized ACL operation 'Z'"), "{}", err.message(""));
}

#[test]
fn acl_flag_aliases_parse() {
    let acl =
        Acl::parse("admin@KERBER.TEST a *@KERBER.TEST -preauth +disallow_svr +0x80 -Allow-Tix\n")
            .unwrap();
    let rs = acl.restrictions("admin@KERBER.TEST", Some("user@KERBER.TEST")).expect("rs");
    assert_ne!(rs.require_attrs & KDB_DISALLOW_SVR, 0);
    assert_ne!(rs.require_attrs & KDB_DISALLOW_ALL_TIX, 0);
    assert_ne!(rs.require_attrs & KDB_REQUIRES_PRE_AUTH, 0);
    assert_eq!(rs.forbid_attrs & KDB_REQUIRES_PRE_AUTH, 0);
}

#[test]
fn acl_comment_only_at_column_zero() {
    let acl = Acl::parse("# full line\nadmin@KERBER.TEST a\n").unwrap();
    assert!(acl.check("admin@KERBER.TEST", AdminOp::Create, None).is_ok());
    assert!(Acl::parse("   # not a comment\n").is_err());
    assert!(Acl::parse("   \n").is_err());
}

#[test]
fn acl_backslash_continuation() {
    let acl = Acl::parse("admin@KERBER.TEST \\\n a\n").unwrap();
    assert!(acl.check("admin@KERBER.TEST", AdminOp::Create, None).is_ok());
}

#[test]
fn acl_allow_admin_rejects_unparseable() {
    assert!(Acl::allow_admin("").is_err());
    assert!(Acl::allow_admin("@KERBER.TEST").is_err());
    assert!(Acl::allow_admin("a//b@KERBER.TEST").is_err());
}

#[test]
fn acl_unknown_restriction_is_load_error() {
    assert!(Acl::parse("admin@KERBER.TEST * *@KERBER.TEST -notatoken\n").is_err());
}

#[test]
fn acl_restriction_clearpolicy_is_imposed() {
    let acl = Acl::parse("restricted@KERBER.TEST a *@KERBER.TEST -clearpolicy\n").unwrap();
    let rs = acl.restrictions("restricted@KERBER.TEST", Some("user9@KERBER.TEST")).expect("rs");
    assert!(rs.clear_policy);
}

#[test]
fn acl_target_star_is_any_check() {
    let acl = Acl::parse("admin@KERBER.TEST a *\n").unwrap();
    assert!(acl.check("admin@KERBER.TEST", AdminOp::Create, Some("svc/x@KERBER.TEST")).is_ok());
}

#[test]
fn restrictions_are_imposed_on_entries() {
    let acl = Acl::parse(
        "admin@KERBER.TEST a *@KERBER.TEST -maxlife 1h +disallow_svr -policy strict\n",
    )
    .unwrap();
    let rs = acl.restrictions("admin@KERBER.TEST", Some("user@KERBER.TEST")).expect("rs");
    let mut p = Principal::nobody();
    p.max_life = 36_000;
    rs.apply_to(&mut p, 1_000);
    assert_eq!(p.max_life, 3_600);
    assert_ne!(p.attributes & KDB_DISALLOW_SVR, 0);
    assert_eq!(p.pw_policy.as_deref(), Some("strict"));
    p.max_life = 60;
    rs.apply_to(&mut p, 1_000);
    assert_eq!(p.max_life, 60);
}

#[test]
fn renaming_deletes_and_adds() {
    let acl = Acl::parse(
        "both@KERBER.TEST ad\nadds@KERBER.TEST a\nbound@KERBER.TEST ad * -clearpolicy\n",
    )
    .unwrap();
    let rename = |who: &str| acl.check_rename(who, "a@KERBER.TEST", "b@KERBER.TEST");
    assert_eq!(rename("both@KERBER.TEST"), Ok(()));
    assert_eq!(rename("adds@KERBER.TEST"), Err(Error::AclDenied));
    assert_eq!(rename("bound@KERBER.TEST"), Err(Error::AclDenied));
    assert_eq!(rename("nobody@KERBER.TEST"), Err(Error::AclDenied));
}

#[test]
fn grants_are_told_as_a_mask() {
    let acl = Acl::parse("*/admin@KERBER.TEST ad\n* i\n").unwrap();
    assert_eq!(acl.privs("joe/admin@KERBER.TEST"), 0x02 + 0x08);
    assert_eq!(acl.privs("joe@KERBER.TEST"), 0x01);
    assert_eq!(acl.privs(""), 0);
    assert!(Acl::name_matches("*/admin@KERBER.TEST", "joe/admin@KERBER.TEST"));
    assert!(!Acl::name_matches("*/admin@KERBER.TEST", "joe@KERBER.TEST"));
    assert_eq!(op_name(AdminOp::ChangePassword), "cpw");
}
