use krb5_kdc::error::{
    proto, Error, Status, BADOPTION, CANNOT_POSTDATE, CLIENT_REVOKED, GENERIC, KEY_EXPIRED,
    MUST_USE_USER2USER, NAME_EXP, NOT_US, POLICY, SERVER_NOMATCH, SERVICE_EXP,
    S_PRINCIPAL_UNKNOWN, TGT_REVOKED, TKT_EXPIRED, TKT_NYV,
};
use krb5_kdc::flags::{
    Flags, ENC_PA_REP, ENC_TKT_IN_SKEY, FORWARDABLE, FORWARDED, HW_AUTHENT, INITIAL, INVALID,
    MAY_POSTDATE, OK_AS_DELEGATE, POSTDATED, PRE_AUTHENT, PROXIABLE, PROXY, RENEW, RENEWABLE,
    RENEWABLE_OK, VALIDATE,
};
use krb5_kdc::issue::sprinc::tgs_header_is_crossrealm;
use krb5_kdc::issue::tgs_policy::{
    check_anon, check_db_times, check_tgs_constraints_skeleton, check_tgs_policy_flags,
    check_tgs_s4u2self, check_tgs_u2u, last_admin_unlock, validate_as_request, Lockout, S4u2Self,
};
use krb5_kdc::issue::times::{
    add_seconds, get_key_exp, get_ticket_flags, kdc_get_ticket_endtime, kdc_get_ticket_renewtime,
    omit_start_if_auth, s4u2self_forwardable, signed_interval,
};
use krb5_kdc::kdb::{MemoryStore, PrincipalRead};
use krb5_kdc::msg::{
    EncTicketPart, EncryptionKey, KdcReqBody, TransitedEncoding,
};
use krb5_kdc::name::{PrincipalName, NT_PRINCIPAL};
use krb5_kdc::pac::{ClientInfo, PacFacts};
use krb5_kdc::store::{
    NamedPolicy, Policy, Principal, TlData, KDB_DISALLOW_ALL_TIX, KDB_DISALLOW_DUP_SKEY,
    KDB_DISALLOW_FORWARDABLE, KDB_DISALLOW_POSTDATED, KDB_DISALLOW_RENEWABLE, KDB_DISALLOW_SVR,
    KDB_DISALLOW_TGT_BASED, KDB_OK_AS_DELEGATE, KDB_OK_TO_AUTH_AS_DELEGATE, KDB_PWCHANGE_SERVICE,
    KDB_REQUIRES_HW_AUTH, KDB_REQUIRES_PRE_AUTH, KDB_REQUIRES_PWCHANGE, TL_LAST_ADMIN_UNLOCK,
};

const REALM: &str = "KERBER.TEST";

fn name(parts: &[&str]) -> PrincipalName {
    PrincipalName {
        name_type: NT_PRINCIPAL,
        name_string: parts.iter().map(|s| s.to_string()).collect(),
    }
}

fn policy() -> Policy {
    Policy {
        max_life: 36_000,
        max_renewable_life: 604_800,
        realm_max_renewable_life: 604_800,
        skew: 300,
        known_enctypes: vec![17, 18, 19, 20],
        permitted_enctypes: vec![20, 18],
        allow_des3: false,
        allow_rc4: false,
        disable_pac: false,
        restrict_anon: false,
        reject_bad_transit: true,
        host_based_services: String::new(),
        no_host_referral: String::new(),
        pkinit: false,
        spake_preauth_groups: Vec::new(),
        pkinit_indicators: Vec::new(),
        spake_preauth_indicators: Vec::new(),
        encrypted_challenge_indicator: None,
    }
}

fn princ(parts: &[&str]) -> Principal {
    let mut p = Principal::nobody();
    p.name = name(parts);
    p.realm = REALM.to_string();
    p
}

fn body(bits: &[u32]) -> KdcReqBody {
    let mut o = Flags::none();
    for b in bits {
        o = o.with_bit(*b, true);
    }
    KdcReqBody {
        kdc_options: o,
        cname: None,
        realm: REALM.to_string(),
        sname: None,
        from: None,
        till: 0,
        rtime: None,
        nonce: 1,
        etype: vec![18],
        addresses: None,
    }
}

fn ticket(bits: &[u32]) -> EncTicketPart {
    let mut f = Flags::none();
    for b in bits {
        f = f.with_bit(*b, true);
    }
    EncTicketPart {
        flags: f,
        key: EncryptionKey { keytype: 18, keyvalue: vec![1; 32] },
        crealm: REALM.to_string(),
        cname: name(&["user"]),
        transited: TransitedEncoding { tr_type: 1, contents: Vec::new() },
        authtime: 1_000,
        starttime: None,
        endtime: 50_000,
        renew_till: None,
        caddr: None,
        authorization_data: None,
    }
}

fn no_lockout() -> Lockout {
    Lockout { fails: 0, last_failed: 0, max_fail: 0, interval: 0, duration: 0 }
}

#[test]
fn is_crossrealm_is_header_realm_vs_server_realm() {
    assert!(!tgs_header_is_crossrealm("KERBER.TEST", "KERBER.TEST"));
    assert!(tgs_header_is_crossrealm("OTHER.TEST", "KERBER.TEST"));
    assert!(!tgs_header_is_crossrealm("OTHER.TEST", "OTHER.TEST"));
    assert!(tgs_header_is_crossrealm("KERBER.TEST", "OTHER.TEST"));
}

#[test]
fn memory_store_lockout_revokes_after_max_fail() {
    let mut user = princ(&["user"]);
    user.pw_policy = Some("strict".to_string());
    let mut mem = MemoryStore::from_principals(REALM.to_string(), policy(), vec![user.clone()]);
    mem.put_policy(NamedPolicy {
        name: "strict".to_string(),
        max_fail: 3,
        pw_failcnt_interval: 0,
        pw_lockout_duration: 0,
    });
    let server = princ(&["krbtgt", REALM]);
    let judge = |mem: &MemoryStore, now: u32| {
        let np = mem.named_policy_for(&user).expect("policy");
        let l = Lockout {
            fails: mem.fail_auth_of(&user),
            last_failed: mem.last_failed_of(&user),
            max_fail: mem.max_fail_for(&user),
            interval: np.pw_failcnt_interval,
            duration: np.pw_lockout_duration,
        };
        validate_as_request(mem.policy(), REALM, &user, &server, &body(&[]), l, now)
    };
    for now in [10, 11] {
        assert!(judge(&mem, now).is_ok());
        mem.record_as_outcome(&user.name, false, now);
    }
    assert!(judge(&mem, 12).is_ok(), "success must reset fail count");
    mem.record_as_outcome(&user.name, true, 12);
    for now in [13, 14, 15] {
        assert!(judge(&mem, now).is_ok(), "fail {now} after success must not lock");
        mem.record_as_outcome(&user.name, false, now);
    }
    assert_eq!(judge(&mem, 16), Err(proto(CLIENT_REVOKED, Status::ClientLockedOut)));
    mem.clear_as_fail_count(&user.name);
    assert!(judge(&mem, 17).is_ok());
}

#[test]
fn an_administrator_ends_a_lockout() {
    let server = princ(&["krbtgt", REALM]);
    let mut user = princ(&["user"]);
    let l = Lockout { fails: 5, last_failed: 100, max_fail: 5, interval: 0, duration: 0 };
    assert_eq!(
        validate_as_request(&policy(), REALM, &user, &server, &body(&[]), l, 200),
        Err(proto(CLIENT_REVOKED, Status::ClientLockedOut))
    );
    user.tl_data.push(TlData { ty: TL_LAST_ADMIN_UNLOCK, contents: vec![150, 0, 0, 0] });
    assert_eq!(last_admin_unlock(&user), 150);
    assert_eq!(validate_as_request(&policy(), REALM, &user, &server, &body(&[]), l, 200), Ok(false));
}

#[test]
fn a_lockout_lasts_its_duration() {
    let server = princ(&["krbtgt", REALM]);
    let user = princ(&["user"]);
    let l = Lockout { fails: 3, last_failed: 100, max_fail: 3, interval: 0, duration: 60 };
    assert!(validate_as_request(&policy(), REALM, &user, &server, &body(&[]), l, 159).is_err());
    assert_eq!(validate_as_request(&policy(), REALM, &user, &server, &body(&[]), l, 160), Ok(false));
    let l = Lockout { fails: 3, last_failed: 100, max_fail: 3, interval: 30, duration: 0 };
    assert!(validate_as_request(&policy(), REALM, &user, &server, &body(&[]), l, 129).is_err());
    assert_eq!(validate_as_request(&policy(), REALM, &user, &server, &body(&[]), l, 130), Ok(true));
}

#[test]
fn initial_requests_are_judged_in_order() {
    let p = policy();
    let mut user = princ(&["user"]);
    let mut server = princ(&["krbtgt", REALM]);
    let judge = |u: &Principal, s: &Principal, b: &KdcReqBody| {
        validate_as_request(&p, REALM, u, s, b, no_lockout(), 1_000)
    };
    for o in [FORWARDED, PROXY, RENEW, VALIDATE, ENC_TKT_IN_SKEY] {
        assert_eq!(
            judge(&user, &server, &body(&[o])),
            Err(proto(BADOPTION, Status::InvalidAsOptions))
        );
    }
    assert_eq!(judge(&user, &server, &body(&[])), Ok(false));
    user.attributes = KDB_DISALLOW_POSTDATED;
    assert_eq!(
        judge(&user, &server, &body(&[POSTDATED])),
        Err(proto(CANNOT_POSTDATE, Status::PostdateNotAllowed))
    );
    user.attributes = KDB_DISALLOW_ALL_TIX;
    assert_eq!(
        judge(&user, &server, &body(&[])),
        Err(proto(CLIENT_REVOKED, Status::ClientLockedOut))
    );
    user.attributes = 0;
    server.attributes = KDB_DISALLOW_ALL_TIX;
    assert_eq!(
        judge(&user, &server, &body(&[])),
        Err(proto(S_PRINCIPAL_UNKNOWN, Status::ServiceLockedOut))
    );
    server.attributes = KDB_DISALLOW_SVR;
    assert_eq!(
        judge(&user, &server, &body(&[])),
        Err(proto(MUST_USE_USER2USER, Status::ServiceNotAllowed))
    );
}

#[test]
fn expiry_and_password_change() {
    let mut user = princ(&["user"]);
    let mut server = princ(&["host", "a"]);
    assert_eq!(check_db_times(Some(&user), &server, 100), Ok(()));
    user.expiration = 100;
    assert_eq!(check_db_times(Some(&user), &server, 100), Ok(()));
    assert_eq!(
        check_db_times(Some(&user), &server, 101),
        Err(proto(NAME_EXP, Status::ClientExpired))
    );
    user.expiration = 0;
    user.pw_expire = 100;
    assert_eq!(
        check_db_times(Some(&user), &server, 101),
        Err(proto(KEY_EXPIRED, Status::ClientKeyExpired))
    );
    user.pw_expire = 0;
    user.attributes = KDB_REQUIRES_PWCHANGE;
    assert_eq!(
        check_db_times(Some(&user), &server, 101),
        Err(proto(KEY_EXPIRED, Status::RequiredPwchange))
    );
    server.attributes = KDB_PWCHANGE_SERVICE;
    user.pw_expire = 100;
    assert_eq!(check_db_times(Some(&user), &server, 101), Ok(()));
    server.expiration = 100;
    assert_eq!(
        check_db_times(Some(&user), &server, 101),
        Err(proto(SERVICE_EXP, Status::ServiceExpired))
    );
}

#[test]
fn anonymous_clients_get_local_tgts_only() {
    let mut p = policy();
    p.restrict_anon = true;
    let anon = PrincipalName::anonymous();
    assert_eq!(check_anon(&p, REALM, &anon, &PrincipalName::krbtgt(REALM)), Ok(()));
    assert_eq!(
        check_anon(&p, REALM, &anon, &name(&["host", "a"])),
        Err(proto(POLICY, Status::AnonymousNotAllowed))
    );
    assert_eq!(check_anon(&p, REALM, &name(&["user"]), &name(&["host", "a"])), Ok(()));
}

#[test]
fn header_tickets_are_judged_by_options() {
    let tgt = PrincipalName::krbtgt(REALM);
    let host = name(&["host", "a"]);
    let judge = |b: &KdcReqBody, t: &EncTicketPart| {
        check_tgs_constraints_skeleton(b, &tgt, REALM, t, &host, REALM, 2_000)
    };
    assert_eq!(judge(&body(&[]), &ticket(&[])), Ok(()));
    assert_eq!(
        judge(&body(&[FORWARDED]), &ticket(&[])),
        Err(proto(BADOPTION, Status::TgtNotForwardable))
    );
    assert_eq!(
        judge(&body(&[PROXY]), &ticket(&[])),
        Err(proto(BADOPTION, Status::TgtNotProxiable))
    );
    assert_eq!(
        judge(&body(&[POSTDATED]), &ticket(&[])),
        Err(proto(BADOPTION, Status::TgtNotPostdatable))
    );
    assert_eq!(
        judge(&body(&[VALIDATE]), &ticket(&[])),
        Err(proto(BADOPTION, Status::ValidateValidTicket))
    );
    assert_eq!(
        judge(&body(&[RENEW]), &ticket(&[])),
        Err(proto(BADOPTION, Status::TicketNotRenewable))
    );
    assert_eq!(
        judge(&body(&[]), &ticket(&[INVALID])),
        Err(proto(TKT_NYV, Status::TicketNotValid))
    );
    let mut later = ticket(&[INVALID]);
    later.starttime = Some(2_001);
    assert_eq!(
        judge(&body(&[VALIDATE]), &later),
        Err(proto(TKT_NYV, Status::NotYetValid))
    );
    let mut renewable = ticket(&[RENEWABLE]);
    renewable.renew_till = Some(2_000);
    assert_eq!(
        judge(&body(&[RENEW]), &renewable),
        Err(proto(TKT_EXPIRED, Status::TktExpired))
    );
    renewable.renew_till = Some(2_001);
    assert_eq!(
        judge(&body(&[RENEW]), &renewable),
        Err(proto(SERVER_NOMATCH, Status::RenewServerMismatch))
    );
    assert_eq!(
        check_tgs_constraints_skeleton(&body(&[RENEW]), &tgt, REALM, &renewable, &tgt, REALM, 2_000),
        Ok(())
    );
    assert_eq!(
        check_tgs_constraints_skeleton(
            &body(&[PROXY]),
            &tgt,
            REALM,
            &ticket(&[PROXIABLE]),
            &tgt,
            REALM,
            2_000
        ),
        Err(proto(BADOPTION, Status::CantProxyTgt))
    );
    assert_eq!(
        check_tgs_constraints_skeleton(&body(&[]), &host, REALM, &ticket(&[]), &host, REALM, 2_000),
        Err(proto(NOT_US, Status::BadTgsServerName))
    );
    assert_eq!(
        check_tgs_constraints_skeleton(
            &body(&[]),
            &PrincipalName::krbtgt("OTHER.TEST"),
            REALM,
            &ticket(&[]),
            &host,
            REALM,
            2_000
        ),
        Err(proto(NOT_US, Status::BadTgsServerInstance))
    );
}

#[test]
fn servers_judge_ticket_requests() {
    let mut server = princ(&["host", "a"]);
    let mut judge = |attrs: u32, b: &KdcReqBody, t: &EncTicketPart| {
        server.attributes = attrs;
        check_tgs_policy_flags(&server, b, true, t, 100)
    };
    assert_eq!(judge(0, &body(&[]), &ticket(&[])), Ok(()));
    assert_eq!(
        judge(KDB_DISALLOW_RENEWABLE, &body(&[RENEWABLE]), &ticket(&[])),
        Err(proto(POLICY, Status::NonRenewableTicket))
    );
    assert_eq!(
        judge(KDB_DISALLOW_POSTDATED, &body(&[MAY_POSTDATE]), &ticket(&[])),
        Err(proto(CANNOT_POSTDATE, Status::NonPostdatableTicket))
    );
    assert_eq!(
        judge(KDB_DISALLOW_DUP_SKEY, &body(&[ENC_TKT_IN_SKEY]), &ticket(&[])),
        Err(proto(POLICY, Status::DupSkeyDisallowed))
    );
    assert_eq!(
        judge(KDB_DISALLOW_ALL_TIX, &body(&[]), &ticket(&[])),
        Err(proto(S_PRINCIPAL_UNKNOWN, Status::ServerLockedOut))
    );
    assert_eq!(
        judge(KDB_DISALLOW_SVR, &body(&[]), &ticket(&[])),
        Err(proto(MUST_USE_USER2USER, Status::ServerNotAllowed))
    );
    assert_eq!(judge(KDB_DISALLOW_SVR, &body(&[ENC_TKT_IN_SKEY]), &ticket(&[])), Ok(()));
    assert_eq!(
        judge(KDB_DISALLOW_TGT_BASED, &body(&[]), &ticket(&[])),
        Err(proto(POLICY, Status::TgtBasedNotAllowed))
    );
    assert_eq!(
        judge(KDB_REQUIRES_HW_AUTH, &body(&[]), &ticket(&[PRE_AUTHENT])),
        Err(proto(GENERIC, Status::NoHwPreauth))
    );
    assert_eq!(judge(KDB_REQUIRES_HW_AUTH, &body(&[]), &ticket(&[HW_AUTHENT])), Ok(()));
    assert_eq!(
        judge(KDB_REQUIRES_PRE_AUTH, &body(&[]), &ticket(&[])),
        Err(proto(GENERIC, Status::NoPreauth))
    );
}

#[test]
fn user_to_user_needs_a_second_ticket() {
    let dest = princ(&["user"]);
    assert!(check_tgs_u2u(&None, Ok(None), &dest).is_err());
}

#[test]
fn s4u2self_asks_for_the_right_pac() {
    let p = policy();
    let user = S4u2Self {
        user: name(&["alice"]),
        realm: REALM.to_string(),
        local: Some(princ(&["alice"])),
        x509: None,
    };
    let judge = |u: &S4u2Self, cross: bool, referral: bool, pac: Option<Result<PacFacts, Error>>| {
        check_tgs_s4u2self(
            &p,
            REALM,
            &body(&[]),
            u,
            cross,
            referral,
            &ticket(&[]),
            &pac,
            no_lockout(),
            2_000,
        )
    };
    let pac = |t: u32, n: &str| {
        Some(Ok(PacFacts {
            client_info: Some(ClientInfo { authtime: t, name: n.to_string() }),
            delegation: None,
        }))
    };
    assert_eq!(judge(&user, false, false, pac(1_000, "user")), Ok(false));
    assert_eq!(
        judge(&user, false, false, pac(1_000, "other")),
        Err(proto(BADOPTION, Status::S4u2selfLocalPacClient))
    );
    assert_eq!(
        judge(&user, false, false, None),
        Err(proto(TGT_REVOKED, Status::S4u2selfNoPac))
    );
    assert_eq!(
        judge(&user, false, true, pac(1_000, "user")),
        Err(proto(S_PRINCIPAL_UNKNOWN, Status::LookingUpServer))
    );
    let foreign = S4u2Self {
        user: name(&["bob"]),
        realm: "OTHER.TEST".to_string(),
        local: None,
        x509: None,
    };
    assert_eq!(
        judge(&foreign, false, false, pac(1_000, "bob@OTHER.TEST")),
        Err(proto(POLICY, Status::S4u2selfClientNotOurs))
    );
    assert_eq!(judge(&foreign, true, false, pac(1_000, "bob@OTHER.TEST")), Ok(false));
    assert_eq!(
        judge(&foreign, true, false, pac(999, "bob@OTHER.TEST")),
        Err(proto(BADOPTION, Status::S4u2selfForeignPacClient))
    );
}

#[test]
fn ticket_ends_within_every_limit() {
    let p = policy();
    let mut client = princ(&["user"]);
    let mut server = princ(&["host", "a"]);
    let end = |h: Option<u32>, till: u32, c: &Principal, s: &Principal| {
        kdc_get_ticket_endtime(&p, 1_000, h, till, Some(c), s).unwrap()
    };
    assert_eq!(end(None, 0, &client, &server), 37_000);
    assert_eq!(end(None, 5_000, &client, &server), 5_000);
    assert_eq!(end(Some(3_000), 5_000, &client, &server), 3_000);
    assert_eq!(end(Some(3_000), 0, &client, &server), 3_000);
    client.max_life = 100;
    assert_eq!(end(None, 5_000, &client, &server), 1_100);
    server.max_life = 50;
    assert_eq!(end(None, 5_000, &client, &server), 1_050);
}

#[test]
fn renewal_ends_within_every_limit() {
    let p = policy();
    let mut client = princ(&["user"]);
    let mut server = princ(&["host", "a"]);
    client.max_renewable_life = 10_000;
    server.max_renewable_life = 20_000;
    let mut f = Flags::none();
    let mut b = body(&[RENEWABLE]);
    b.rtime = Some(8_000);
    assert_eq!(
        kdc_get_ticket_renewtime(&p, &b, None, Some(&client), &server, &mut f, 1_000, 2_000),
        Some(8_000)
    );
    assert!(f.bit(RENEWABLE));
    b.rtime = None;
    assert_eq!(
        kdc_get_ticket_renewtime(&p, &b, None, Some(&client), &server, &mut f, 1_000, 2_000),
        Some(11_000)
    );
    let mut header = ticket(&[RENEWABLE]);
    header.renew_till = Some(4_000);
    assert_eq!(
        kdc_get_ticket_renewtime(&p, &b, Some(&header), None, &server, &mut f, 1_000, 2_000),
        Some(4_000)
    );
    header.flags = Flags::none();
    assert_eq!(
        kdc_get_ticket_renewtime(&p, &b, Some(&header), None, &server, &mut f, 1_000, 2_000),
        None
    );
    assert!(!f.bit(RENEWABLE));
    let mut ok = body(&[RENEWABLE_OK]);
    ok.till = 2_000;
    assert_eq!(
        kdc_get_ticket_renewtime(&p, &ok, None, Some(&client), &server, &mut f, 1_000, 2_000),
        None
    );
    ok.till = 3_000;
    assert_eq!(
        kdc_get_ticket_renewtime(&p, &ok, None, Some(&client), &server, &mut f, 1_000, 2_000),
        Some(3_000)
    );
    server.attributes = KDB_DISALLOW_RENEWABLE;
    assert_eq!(
        kdc_get_ticket_renewtime(&p, &ok, None, Some(&client), &server, &mut f, 1_000, 2_000),
        None
    );
}

#[test]
fn ticket_flags_follow_options_entries_and_header() {
    let mut client = princ(&["user"]);
    let mut server = princ(&["host", "a"]);
    let asked = body(&[FORWARDABLE, PROXIABLE]).kdc_options;
    let f = get_ticket_flags(asked, Some(&client), &server, None);
    assert!(f.bit(FORWARDABLE) && f.bit(PROXIABLE) && f.bit(INITIAL) && f.bit(ENC_PA_REP));
    assert!(!f.bit(PRE_AUTHENT) && !f.bit(OK_AS_DELEGATE));
    client.attributes = KDB_DISALLOW_FORWARDABLE;
    let f = get_ticket_flags(asked, Some(&client), &server, None);
    assert!(!f.bit(FORWARDABLE) && f.bit(PROXIABLE));
    server.attributes = KDB_OK_AS_DELEGATE;
    let h = ticket(&[FORWARDABLE, PRE_AUTHENT]).flags;
    let f = get_ticket_flags(asked, None, &server, Some(h));
    assert!(f.bit(FORWARDABLE) && !f.bit(PROXIABLE) && f.bit(PRE_AUTHENT));
    assert!(f.bit(OK_AS_DELEGATE) && !f.bit(INITIAL));
    let h = ticket(&[INVALID, PROXIABLE]).flags;
    let f = get_ticket_flags(body(&[VALIDATE]).kdc_options, None, &server, Some(h));
    assert_eq!(f, ticket(&[PROXIABLE]).flags);
}

#[test]
fn small_time_rules() {
    assert_eq!(add_seconds(10, -10), Some(0));
    assert_eq!(add_seconds(10, -11), None);
    assert_eq!(add_seconds(u32::MAX, 1), None);
    assert_eq!(signed_interval(10, 25), 15);
    assert_eq!(omit_start_if_auth(5, 5), None);
    assert_eq!(omit_start_if_auth(6, 5), Some(6));
    let mut client = princ(&["user"]);
    assert_eq!(get_key_exp(&client), None);
    client.pw_expire = 7;
    assert_eq!(get_key_exp(&client), Some(7));
    client.expiration = 5;
    assert_eq!(get_key_exp(&client), Some(5));
    let mut server = princ(&["host", "a"]);
    let f = ticket(&[FORWARDABLE]).flags;
    assert!(s4u2self_forwardable(&server, f).bit(FORWARDABLE));
    server.s4u_allowed_to.push("host/b".to_string());
    assert!(!s4u2self_forwardable(&server, f).bit(FORWARDABLE));
    server.attributes = KDB_OK_TO_AUTH_AS_DELEGATE;
    assert!(s4u2self_forwardable(&server, f).bit(FORWARDABLE));
}
