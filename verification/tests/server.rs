use krb5_kdc::audit::json::{json_escape, start_stop_json};
use krb5_kdc::audit::record::{
    as_failure, as_success, clear_thread_audit, contains_text, current_audit, format_from,
    log_failure, log_success, set_audit, set_thread_audit, tgs_fail_emsg, tgs_fail_stage,
    tgs_failure, tgs_s4u_kind, tgs_success, ticket_key, transited_shown, AuditEvent, IssuedFacts,
    JsonAudit, ReqKind, RequestFacts, S4uKind,
};
use krb5_kdc::audit::{make_tkt_id, req_id_of, upper_hex_string, AUTHN_REQ_CL, ENCR_REP, SRVC_PRINC};
use krb5_kdc::error::{
    proto, Error, Status, C_PRINCIPAL_UNKNOWN, POLICY, PREAUTH_FAILED, S_PRINCIPAL_UNKNOWN,
};
use krb5_kdc::flags::Flags;
use krb5_kdc::issue::as_req::PreauthAction;
use krb5_kdc::issue::client_time::ClientTime;
use krb5_kdc::listen::{
    arrive, depart, frame_reply, judge_length, kdc_user, too_long_message, udp_answer, Arrival,
    ConnRegistry, Dispatch, ListenLimits, Outcome, StreamLength, MAX_DGRAM_REPLY, MAX_TCP_REQUEST,
    MAX_TCP_WORKERS,
};
use krb5_kdc::lookaside::Lookaside;
use krb5_kdc::msg::{
    AuthDatum, EncryptedData, EncryptionKey, HostAddress, KdcReqBody, PaData, ADDRTYPE_INET,
    PA_ENCRYPTED_CHALLENGE, PA_ENC_TIMESTAMP, PA_FOR_USER, PA_FX_FAST, PA_PAC_OPTIONS,
};
use krb5_kdc::name::{PrincipalName, NT_PRINCIPAL};
use krb5_kdc::plugins::{
    advertise_preauth, clear_thread_policy, current_policy, enc_ts_run, pkinit_run,
    run_as_preauth, set_policy, set_thread_policy, spake_run, Builtin, DefaultPolicy, DemoPolicy,
    DemoPreauth, DenyPolicy, ExtraOffer, GreetAuth, KdcPolicy, SpakeStep, GREET_AD_TYPE,
    GREET_TEXT,
};
use krb5_kdc::slots::Slots;
use krb5_kdc::store::{KeyEntry, Policy, Principal, KDB_REQUIRES_HW_AUTH};

const REALM: &str = "KERBER.TEST";

fn name(parts: &[&str]) -> PrincipalName {
    PrincipalName {
        name_type: NT_PRINCIPAL,
        name_string: parts.iter().map(|s| s.to_string()).collect(),
    }
}

fn policy() -> Policy {
    Policy {
        max_life: 36_000,
        max_renewable_life: 604_800,
        realm_max_renewable_life: 604_800,
        skew: 300,
        known_enctypes: vec![17, 18, 19, 20],
        permitted_enctypes: vec![20, 18],
        allow_des3: false,
        allow_rc4: false,
        disable_pac: false,
        restrict_anon: false,
        reject_bad_transit: true,
        host_based_services: String::new(),
        no_host_referral: String::new(),
        pkinit: false,
        spake_preauth_groups: Vec::new(),
        pkinit_indicators: Vec::new(),
        spake_preauth_indicators: Vec::new(),
        encrypted_challenge_indicator: None,
    }
}

fn princ(parts: &[&str]) -> Principal {
    let mut p = Principal::nobody();
    p.name = name(parts);
    p.realm = REALM.to_string();
    p
}

fn body() -> KdcReqBody {
    KdcReqBody {
        kdc_options: Flags::none(),
        cname: Some(name(&["user"])),
        realm: REALM.to_string(),
        sname: Some(name(&["krbtgt", REALM])),
        from: None,
        till: 0,
        rtime: None,
        nonce: 1,
        etype: vec![18],
        addresses: None,
    }
}

#[test]
fn limits_have_defaults() {
    let l = ListenLimits::default();
    assert_eq!(l.max_tcp_workers, MAX_TCP_WORKERS);
    assert_eq!(l.max_tcp_request, MAX_TCP_REQUEST);
    assert_eq!(l.max_dgram_reply_size, MAX_DGRAM_REPLY);
    assert_eq!((l.io_timeout, l.shutdown_poll), (5_000, 250));
    assert_eq!(kdc_user(None), "nobody");
    assert_eq!(kdc_user(Some("")), "nobody");
    assert_eq!(kdc_user(Some("kdc")), "kdc");
}

#[test]
fn requests_are_dispatched_once() {
    let mut c = Lookaside::new();
    assert_eq!(arrive(&mut c, b"req", 0), Arrival::Process);
    assert_eq!(arrive(&mut c, b"req", 1), Arrival::Drop);
    let d = depart(&mut c, b"req", Outcome::Reply(b"reply".to_vec()), 2);
    assert_eq!(d, Dispatch::Send(b"reply".to_vec()));
    assert_eq!(arrive(&mut c, b"req", 3), Arrival::Resend(b"reply".to_vec()));
    assert_eq!(arrive(&mut c, b"bad", 4), Arrival::Process);
    assert_eq!(
        depart(&mut c, b"bad", Outcome::Failed(Error::Rng), 5),
        Dispatch::Error(Error::Rng)
    );
    assert_eq!(arrive(&mut c, b"bad", 6), Arrival::Process, "a failure is not kept");
    assert_eq!(depart(&mut c, b"bad", Outcome::Panicked, 7), Dispatch::Panic);
    assert_eq!(arrive(&mut c, b"none", 8), Arrival::Process);
    assert_eq!(
        depart(&mut c, b"none", Outcome::Reply(Vec::new()), 9),
        Dispatch::Send(Vec::new())
    );
    assert_eq!(arrive(&mut c, b"none", 10), Arrival::Process, "an empty reply is not kept");
}

#[test]
fn udp_oversize_reply_is_response_too_big() {
    assert_eq!(udp_answer(vec![0; 11], 10, vec![52]), Some(vec![52]));
    assert_eq!(udp_answer(vec![0; 10], 10, vec![52]), Some(vec![0; 10]));
    assert_eq!(udp_answer(Vec::new(), 10, vec![52]), None);
}

#[test]
fn tcp_oversize_length_is_field_toolong() {
    assert_eq!(judge_length(&64u32.to_be_bytes(), 32), StreamLength::TooLong(64));
    assert_eq!(
        too_long_message(64),
        "error constructing KRB_ERR_FIELD_TOOLONG error! length 64"
    );
}

#[test]
fn tcp_one_mib_plus_one_is_field_toolong() {
    let n: u32 = 1024 * 1024 + 1;
    assert_eq!(judge_length(&n.to_be_bytes(), MAX_TCP_REQUEST), StreamLength::TooLong(n));
    let n: u32 = 1024 * 1024 - 4;
    assert_eq!(judge_length(&n.to_be_bytes(), MAX_TCP_REQUEST), StreamLength::Read(n));
}

#[test]
fn tcp_zero_length_is_dropped() {
    assert_eq!(judge_length(&[0; 4], MAX_TCP_REQUEST), StreamLength::Close);
}

#[test]
fn replies_are_framed() {
    assert_eq!(frame_reply(b"abc").unwrap().unwrap(), b"\0\0\0\x03abc");
    assert_eq!(frame_reply(b""), Ok(None));
}

#[test]
fn tcp_over_cap_evicts_the_oldest_connection() {
    let mut r = ConnRegistry::new(2);
    assert_eq!(r.register(), (0, vec![]));
    assert_eq!(r.register(), (1, vec![]));
    assert_eq!(r.register(), (2, vec![0]), "the oldest is closed, not the newcomer");
    assert_eq!(r.live, [1, 2]);
    r.deregister(1);
    r.deregister(1);
    assert_eq!(r.live, [2]);
    assert_eq!(r.register(), (3, vec![]));
    let mut one = ConnRegistry::new(0);
    assert_eq!(one.register(), (0, vec![]));
    assert_eq!(one.register(), (1, vec![0]), "one stream may always be open");
}

#[test]
fn preauth_types_are_advertised() {
    let p = policy();
    let mut user = princ(&["user"]);
    let types = |v: Vec<PaData>| v.iter().map(|x| x.padata_type).collect::<Vec<i32>>();
    let plain = types(advertise_preauth(&p, &user, false, &[]));
    assert!(plain.contains(&PA_FX_FAST) && plain.contains(&PA_ENC_TIMESTAMP));
    assert!(!plain.contains(&PA_ENCRYPTED_CHALLENGE));
    user.keys =
        vec![KeyEntry { etype: 18, kvno: 1, key: vec![7; 32], salt_type: None, kdb_salt: None }];
    let armored = types(advertise_preauth(&p, &user, true, &[]));
    assert!(armored.contains(&PA_ENCRYPTED_CHALLENGE));
    let mut hw = princ(&["user"]);
    hw.attributes = KDB_REQUIRES_HW_AUTH;
    let extra = [ExtraOffer {
        named_fast: false,
        hardware: true,
        offer: vec![PaData { padata_type: 777, padata_value: vec![] }],
    }];
    let only = types(advertise_preauth(&p, &hw, false, &extra));
    assert!(only.contains(&777) && !only.contains(&PA_ENC_TIMESTAMP));
    assert_eq!(Builtin::EncTs.pa_type(), PA_ENC_TIMESTAMP);
}

#[test]
fn modules_run_until_one_acts() {
    assert_eq!(run_as_preauth(vec![Ok(None), Ok(None)]), Ok(None));
    assert_eq!(
        run_as_preauth(vec![Ok(None), Ok(Some(PreauthAction::EncTsOk)), Err(Error::Rng)]),
        Ok(Some(PreauthAction::EncTsOk))
    );
    assert_eq!(run_as_preauth(vec![Err(Error::Rng), Ok(None)]), Err(Error::Rng));
    let pa = PaData { padata_type: 17, padata_value: vec![1] };
    assert_eq!(
        pkinit_run(Ok(Some((key(4), pa.clone(), true)))).action,
        Ok(Some(PreauthAction::Pkinit { key: key(4), pa, signed: true }))
    );
    assert_eq!(
        spake_run(Ok(Some(SpakeStep::Done(key(5))))).action,
        Ok(Some(PreauthAction::SpakeDone(key(5))))
    );
    assert_eq!(
        spake_run(Ok(Some(SpakeStep::Challenge(vec![2])))).action,
        Ok(Some(PreauthAction::Challenge(vec![2])))
    );
}

fn key(octet: u8) -> EncryptionKey {
    EncryptionKey { keytype: 18, keyvalue: vec![octet; 32] }
}

/// A timestamp: the type that it names, then the key that opens it.
fn timestamp(etype: u8, octet: u8) -> [PaData; 1] {
    [PaData { padata_type: PA_ENC_TIMESTAMP, padata_value: vec![etype, octet] }]
}

fn outer_form(b: &Vec<u8>) -> Result<EncryptedData, Error> {
    match b.first() {
        Some(e) => Ok(EncryptedData { etype: i32::from(*e), kvno: None, cipher: b[1..].to_vec() }),
        None => Err(Error::Asn1("empty".to_string())),
    }
}

#[test]
fn enc_timestamp_registry_success_does_not_double_verify() {
    let mut user = princ(&["user"]);
    let entry = |etype: i32, octet: u8| KeyEntry {
        etype,
        kvno: 1,
        key: vec![octet; 32],
        salt_type: None,
        kdb_salt: None,
    };
    user.keys = vec![entry(18, 7), entry(20, 8), entry(18, 9)];
    let tried = std::cell::RefCell::new(Vec::new());
    let kept = std::cell::RefCell::new(0);
    let run = |padata: &[PaData]| {
        enc_ts_run(
            &policy(),
            REALM,
            &user,
            padata,
            1_000,
            &outer_form,
            &|k: &EncryptionKey, usage: u32, c: &Vec<u8>| {
                assert_eq!(usage, 1);
                tried.borrow_mut().push(k.keyvalue[0]);
                if k.keyvalue[0] == c[0] {
                    Ok(ClientTime { seconds: 1_000, micros: None })
                } else {
                    Err(Error::Crypto(format!("key {}", k.keyvalue[0])))
                }
            },
            &|_: &String, _: &String, _: u32, _: i32, _: &Vec<u8>| {
                *kept.borrow_mut() += 1;
                *kept.borrow() > 1
            },
        )
    };
    let ok = run(&timestamp(18, 7));
    assert_eq!(ok.action, Ok(Some(PreauthAction::EncTsOk)));
    assert_eq!(ok.attempt, Some(true));
    assert_eq!(*tried.borrow(), [7], "the first key that opens it counts");
    assert_eq!(*kept.borrow(), 1, "it is kept once");
    let bad = run(&timestamp(18, 1));
    assert_eq!(bad.action, Err(Error::Crypto("key 9".to_string())), "the last error counts");
    assert_eq!(bad.attempt, Some(false));
    assert_eq!(*tried.borrow(), [7, 7, 9]);
    let failed = || Err(proto(PREAUTH_FAILED, Status::PreauthFailed));
    for etype in [17, 99] {
        let none = run(&timestamp(etype, 7));
        assert_eq!((none.action, none.attempt), (failed(), Some(false)), "no key of that type");
    }
    let absent = run(&[]);
    assert_eq!((absent.action, absent.attempt), (Ok(None), None));
    let unread = run(&[PaData { padata_type: PA_ENC_TIMESTAMP, padata_value: Vec::new() }]);
    assert_eq!((unread.action, unread.attempt), (Ok(None), None));
}

#[test]
fn policies_say_yes_or_no() {
    let user = princ(&["user"]);
    let host = name(&["host", "a"]);
    assert_eq!(DefaultPolicy.check_as(&user, &[]), Ok(()));
    assert_eq!(DefaultPolicy.check_tgs(&host, &[]), Ok(()));
    assert_eq!(DenyPolicy.check_as(&user, &[]), Err(proto(POLICY, Status::Kdcpolicy)));
    assert_eq!(DenyPolicy.check_tgs(&host, &[]), Err(proto(POLICY, Status::Kdcpolicy)));
    let mut demo = DemoPolicy::default();
    assert_eq!(demo.check_as(&user, &[]), Ok(()));
    assert_eq!(demo.check_tgs(&host, &[]), Ok(()));
    assert_eq!(demo.check_tgs(&host, &[]), Ok(()));
    assert_eq!((demo.as_checks, demo.tgs_checks), (1, 2));
    let mut pre = DemoPreauth::new();
    pre.advertise();
    assert_eq!(pre.process_as(), Ok(None));
    assert_eq!((pre.ads, pre.procs), (1, 1));
}

#[test]
fn a_thread_slot_covers_the_process_slot() {
    let mut s: Slots<u32> = Slots { thread: None, process: None };
    assert_eq!(*current_policy(&s, &0), 0);
    set_policy(&mut s, 1);
    assert_eq!(*current_policy(&s, &0), 1);
    set_thread_policy(&mut s, 2);
    assert_eq!(*current_policy(&s, &0), 2);
    clear_thread_policy(&mut s);
    assert_eq!(*current_policy(&s, &0), 1);
    let mut a: Slots<u32> = Slots { thread: None, process: None };
    set_audit(&mut a, 1);
    set_thread_audit(&mut a, 2);
    assert_eq!(*current_audit(&a, &0), 2);
    clear_thread_audit(&mut a);
    assert_eq!(*current_audit(&a, &0), 1);
}

#[test]
fn greet_is_tgs_only() {
    let g = GreetAuth;
    assert_eq!(g.element(), AuthDatum { ad_type: GREET_AD_TYPE, ad_data: GREET_TEXT.to_vec() });
    assert_eq!(GREET_TEXT, *b"Hello, KDC issued acceptor world!");
    let mut reply = Vec::new();
    assert_eq!(g.handle(false, &mut reply, true, true, Ok(vec![1])), Ok(()));
    assert!(reply.is_empty(), "an AS reply is not greeted");
    assert_eq!(g.handle(true, &mut reply, true, true, Ok(vec![1])), Ok(()));
    assert_eq!(reply.len(), 1);
    assert_eq!(reply[0].ad_data, [1]);
}

#[test]
fn texts_are_escaped_for_json() {
    assert_eq!(json_escape("a\"b\\c\n\u{1}"), "a\\\"b\\\\c\\n\\u0001");
    assert_eq!(upper_hex_string(&[0xab, 0x0f]), "AB0F");
    assert_eq!(req_id_of(&[0, 1, 61, 62]).len(), 4);
    assert!(start_stop_json("KDC_START", true).contains("KDC_START"));
    let j = JsonAudit;
    assert_ne!(j.kdc_start(true), j.kdc_start(false));
    assert_ne!(j.kdc_start(true), j.kdc_stop(true));
}

fn facts(b: &KdcReqBody) -> RequestFacts<'_> {
    RequestFacts {
        body: b,
        sender: Some(HostAddress { addr_type: ADDRTYPE_INET, address: vec![127, 0, 0, 1] }),
        sender_v6: "",
        req_id: "REQ",
        port: 88,
        client: "user@KERBER.TEST",
        server: Some("krbtgt/KERBER.TEST@KERBER.TEST"),
        header_cipher: None,
    }
}

#[test]
fn issued_tickets_are_recorded() {
    let b = body();
    let issued = IssuedFacts { rep_etype: 18, tkt_etype: 20, opened: Some((18, 55)), cipher: b"c" };
    let r = as_success(&facts(&b), &issued);
    assert!(r.line.ok);
    assert_eq!((r.line.kind, r.line.status.as_str()), ("AS_REQ", "ISSUE"));
    assert_eq!(r.line.from, "127.0.0.1");
    assert_eq!(r.line.client, "user@KERBER.TEST");
    assert_eq!(
        r.line.req_etypes.as_deref(),
        Some("1 etypes {aes256-cts-hmac-sha1-96(18)}")
    );
    let last = r.calls.last().expect("a call");
    assert_eq!((last.event, last.success), (AuditEvent::AsReq, true));
    assert_eq!(last.state.stage, ENCR_REP);
    assert_eq!(last.state.tkt_out_id, Some(make_tkt_id(b"c")));
    assert!(JsonAudit.record(last).contains("AS_REQ"));
    let r = tgs_success(&facts(&b), &issued, Some((S4uKind::Transition, "alice".to_string())));
    assert!(r.line.ok);
    assert!(r.line.s4u.is_some());
    assert!(r.calls.iter().any(|c| c.event == AuditEvent::S4u2Self));
}

#[test]
fn refusals_are_recorded() {
    let b = body();
    let r = as_failure(&facts(&b), C_PRINCIPAL_UNKNOWN, "CLIENT_NOT_FOUND");
    assert!(!r.line.ok);
    assert_eq!(r.line.status, "CLIENT_NOT_FOUND");
    let outcomes: Vec<bool> = r.calls.iter().map(|c| c.success).collect();
    assert_eq!(outcomes, [true, false], "the request is announced, then refused");
    let r = tgs_failure(&facts(&b), POLICY, Some(Status::Kdcpolicy), "KDCPOLICY", 5, None);
    assert!(!r.line.ok);
    let outcomes: Vec<bool> = r.calls.iter().map(|c| c.success).collect();
    assert_eq!(outcomes, [true, false]);
    assert_eq!(tgs_fail_stage(Some(Status::ProcessTgs)), AUTHN_REQ_CL);
    assert_eq!(tgs_fail_stage(Some(Status::LookingUpServer)), SRVC_PRINC);
    assert_eq!(tgs_fail_emsg(S_PRINCIPAL_UNKNOWN), "Server not found in Kerberos database");
    assert_eq!(tgs_fail_emsg(POLICY), "");
}

#[test]
fn requests_are_described() {
    let pa = |t: i32| PaData { padata_type: t, padata_value: vec![] };
    assert_eq!(tgs_s4u_kind(Some(&[pa(PA_FOR_USER)]), false), Some(S4uKind::Transition));
    assert_eq!(tgs_s4u_kind(Some(&[pa(PA_PAC_OPTIONS)]), true), Some(S4uKind::Delegation));
    assert_eq!(tgs_s4u_kind(Some(&[pa(1)]), true), None);
    assert_eq!(tgs_s4u_kind(None, false), None);
    assert!(contains_text("KDC has no support", "no sup"));
    assert!(!contains_text("abc", "abd"));
    assert_eq!(format_from(&None, ""), "<unknown>");
    assert_eq!(log_failure(&[0x6a]), Some(ReqKind::As));
    assert_eq!(log_failure(&[0x6c]), Some(ReqKind::Tgs));
    assert_eq!(log_failure(&[0x30]), None);
    assert_eq!(log_success(&[0x6a], &[0x6b]), Some(ReqKind::As));
    assert_eq!(log_success(&[0x6a], &[0x7e]), None);
    let mut p = princ(&["krbtgt", REALM]);
    p.keys = vec![KeyEntry { etype: 18, kvno: 1, key: vec![7; 32], salt_type: None, kdb_salt: None }];
    assert_eq!(ticket_key(&p, 18, &policy()), Some(0));
    assert_eq!(transited_shown(&[7; 126]), (vec![7; 125], true));
    assert_eq!(transited_shown(&[7; 125]), (vec![7; 125], false));
}
