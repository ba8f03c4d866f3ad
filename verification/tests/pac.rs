use krb5_kdc::ad::{
    check_indicators, check_normal_tgs_pac, check_s4u2proxy_policy, check_tgs_s4u2proxy,
    filter_cross_realm_logon, find_s4u_padata, judge_pac_versions, pac_from_ticket_part,
    pac_privsvr_key, pac_signature_outcome, rbcd_pac_client, read_pac_signature, s4u_from_userid,
    s4u_reply_usage, should_have_ticket_signature, update_delegation_info,
    verify_for_user_checksum, CksumOutcome, CksumType, LogonSids, S4uPadata, Sid,
    TicketDatum, KU_S4U_X509_REPLY, KU_S4U_X509_REQUEST, REQUIRE_AUTH,
};
use krb5_kdc::ad::s4u::{
    make_s4u2self_rep, process_s4u2self_req, process_s4u_x509_user, ForUser, S4uUserId, X509User,
};
use krb5_kdc::ad::verify::{
    get_verified_pac, verify_pac, verify_pac_signatures, PacFault,
};
use krb5_kdc::der::{find_tagged, kdc_req_body_der, take_der_slice, userid_der_from_pa};
use krb5_kdc::error::{
    proto, Error, Status, BADOPTION, C_PRINCIPAL_UNKNOWN, GENERIC, INAPP_CKSUM, MODIFIED, POLICY,
    SERVER_NOMATCH, SUMTYPE_NOSUPP, TGT_REVOKED,
};
use krb5_kdc::flags::{Flags, FORWARDABLE};
use krb5_kdc::issue::tgs_policy::SecondTicket;
use krb5_kdc::msg::{
    AuthDatum, EncTicketPart, EncryptionKey, KdcReqBody, PaData, TransitedEncoding,
    AD_IF_RELEVANT, AD_WIN2K_PAC, PA_FOR_USER, PA_FOR_X509_USER,
};
use krb5_kdc::name::{PrincipalName, NT_MS_PRINCIPAL, NT_PRINCIPAL};
use krb5_kdc::pac::reply::{sign_reply_pac, SignInput};
use krb5_kdc::pac::{
    pac_client_info_eq, pac_princ_with_realm, signature_buffer, verify_deleg_pac, ClientInfo,
    DelegationInfo, FreshPac, PacBuffer, PacFacts, PacSigning, SignStep, SignatureForm,
    PAC_CLIENT_INFO, PAC_FULL_CHECKSUM, PAC_LOGON_INFO, PAC_PRIVSVR_CHECKSUM, PAC_SERVER_CHECKSUM,
    PAC_TICKET_CHECKSUM,
};
use krb5_kdc::store::{KeyEntry, Principal, KDB_REQUIRES_PWCHANGE};

const REALM: &str = "KERBER.TEST";

fn name(parts: &[&str]) -> PrincipalName {
    PrincipalName {
        name_type: NT_PRINCIPAL,
        name_string: parts.iter().map(|s| s.to_string()).collect(),
    }
}

fn princ(parts: &[&str]) -> Principal {
    let mut p = Principal::nobody();
    p.name = name(parts);
    p.realm = REALM.to_string();
    p
}

fn types() -> Vec<CksumType> {
    vec![
        CksumType { cksumtype: 16, keyed: true, size: 12 },
        CksumType { cksumtype: 14, keyed: false, size: 20 },
    ]
}

fn ticket(cname: &[&str], forwardable: bool) -> EncTicketPart {
    EncTicketPart {
        flags: Flags::none().with_bit(FORWARDABLE, forwardable),
        key: EncryptionKey { keytype: 18, keyvalue: vec![1; 32] },
        crealm: REALM.to_string(),
        cname: name(cname),
        transited: TransitedEncoding { tr_type: 1, contents: Vec::new() },
        authtime: 1_000,
        starttime: None,
        endtime: 50_000,
        renew_till: None,
        caddr: None,
        authorization_data: None,
    }
}

fn facts(t: u32, n: &str) -> PacFacts {
    PacFacts {
        client_info: Some(ClientInfo { authtime: t, name: n.to_string() }),
        delegation: None,
    }
}

fn body(sname: &[&str]) -> KdcReqBody {
    KdcReqBody {
        kdc_options: Flags::none(),
        cname: None,
        realm: REALM.to_string(),
        sname: Some(name(sname)),
        from: None,
        till: 0,
        rtime: None,
        nonce: 1,
        etype: vec![18],
        addresses: None,
    }
}

#[test]
fn check_indicators_any_match_and_policy() {
    let mut server = princ(&["svc"]);
    assert!(check_indicators(&server, &[]).is_ok());
    server.string_attrs.push((REQUIRE_AUTH.into(), "pkinit spake".into()));
    assert!(check_indicators(&server, &["spake".into()]).is_ok());
    let err = check_indicators(&server, &["password".into()]).unwrap_err();
    match err {
        Error::Protocol { code, text, .. } => {
            assert_eq!(code, POLICY);
            assert_eq!(text, Some(Status::HigherAuthenticationRequired));
        }
        other => panic!("{other:?}"),
    }
}

#[test]
fn signature_buffers_are_read() {
    let t = types();
    let buf = signature_buffer(16, &[7; 12]);
    assert_eq!(&buf[..4], &[16, 0, 0, 0]);
    let sig = read_pac_signature(&t, Some(&buf), PAC_SERVER_CHECKSUM).unwrap();
    assert_eq!((sig.cksumtype, sig.mac), (16, vec![7; 12]));
    let refused = |b: Option<&[u8]>| read_pac_signature(&t, b, PAC_SERVER_CHECKSUM).err();
    assert_eq!(refused(None), Some(proto(GENERIC, Status::HeaderPac)));
    assert_eq!(refused(Some(&buf[..15])), Some(proto(GENERIC, Status::HeaderPac)));
    assert_eq!(refused(Some(&[14, 0, 0, 0])), Some(proto(SUMTYPE_NOSUPP, Status::HeaderPac)));
    assert_eq!(refused(Some(&[99, 0, 0, 0])), Some(proto(GENERIC, Status::HeaderPac)));
    assert_eq!(pac_signature_outcome(CksumOutcome::Good), Ok(()));
    assert_eq!(
        pac_signature_outcome(CksumOutcome::Integrity),
        Err(proto(MODIFIED, Status::HeaderPac))
    );
    assert_eq!(pac_signature_outcome(CksumOutcome::Failed), Err(proto(GENERIC, Status::HeaderPac)));
}

#[test]
fn signatures_count_by_ticket() {
    let t = types();
    let server = EncryptionKey { keytype: 18, keyvalue: vec![1; 32] };
    let kdc = EncryptionKey { keytype: 18, keyvalue: vec![2; 32] };
    // Each signature in the PAC, and what it must be over.
    let pac = b"pac".to_vec();
    let whole = |p: &Vec<u8>, blank: &Vec<u32>| -> Result<Vec<u8>, PacFault> {
        assert_eq!(p, b"pac");
        Ok(blank.iter().map(|k| *k as u8).collect())
    };
    let run = |bad: &[u32], with_kdc: bool, ticket: bool, service: bool| {
        let mac = |kind: u32| [u8::from(bad.contains(&kind)), kind as u8];
        let held = |p: &Vec<u8>, kind: u32| -> Result<Option<Vec<u8>>, PacFault> {
            assert_eq!(p, b"pac");
            let mut mac = mac(kind).to_vec();
            mac.extend_from_slice(&[0; 10]);
            Ok(Some(signature_buffer(16, &mac)))
        };
        let check = |k: &EncryptionKey, usage: u32, over: &Vec<u8>, ty: i32, mac: &Vec<u8>| {
            assert_eq!((usage, ty, mac.len()), (17, 16, 12));
            let (key, data): (&EncryptionKey, Vec<u8>) = match u32::from(mac[1]) {
                PAC_SERVER_CHECKSUM => (&server, vec![6, 7]),
                PAC_FULL_CHECKSUM => (&kdc, vec![6, 7, PAC_FULL_CHECKSUM as u8]),
                PAC_TICKET_CHECKSUM => (&kdc, b"ticket".to_vec()),
                _ => (&kdc, held(&pac, PAC_SERVER_CHECKSUM).unwrap().unwrap()[4..].to_vec()),
            };
            assert_eq!((k, over), (key, &data));
            if mac[0] == 0 {
                CksumOutcome::Good
            } else {
                CksumOutcome::Integrity
            }
        };
        let kdc = if with_kdc { Some(kdc.clone()) } else { None };
        let ticket = if ticket { Some(b"ticket".to_vec()) } else { None };
        verify_pac_signatures(
            &t,
            &pac,
            &server,
            &kdc,
            ticket.as_ref(),
            service,
            &whole,
            &held,
            &check,
        )
    };
    let modified = Err(proto(MODIFIED, Status::HeaderPac));
    assert_eq!(run(&[], true, true, true), Ok(()));
    assert_eq!(run(&[PAC_TICKET_CHECKSUM], true, true, true), modified);
    assert_eq!(run(&[PAC_TICKET_CHECKSUM], true, false, true), Ok(()));
    assert_eq!(run(&[PAC_TICKET_CHECKSUM, PAC_FULL_CHECKSUM], true, true, false), Ok(()));
    assert_eq!(run(&[PAC_FULL_CHECKSUM], true, true, true), modified);
    assert_eq!(run(&[PAC_PRIVSVR_CHECKSUM], true, true, true), modified);
    assert_eq!(run(&[PAC_PRIVSVR_CHECKSUM], false, true, true), Ok(()));
    assert_eq!(run(&[PAC_SERVER_CHECKSUM], false, false, false), modified);
    assert_eq!(run(&[PAC_SERVER_CHECKSUM], true, true, true), modified);
    let good = |_: &EncryptionKey, _: u32, _: &Vec<u8>, _: i32, _: &Vec<u8>| CksumOutcome::Good;
    let generic = Err(proto(GENERIC, Status::HeaderPac));
    let none = |_: &Vec<u8>, _: u32| -> Result<Option<Vec<u8>>, PacFault> { Ok(None) };
    assert_eq!(verify_pac(&t, &pac, &server, kdc.clone(), false, &whole, &none, &good), generic);
    for (fault, refused) in [
        (PacFault::MissingBuffer, &generic),
        (PacFault::Truncated, &generic),
        (PacFault::Malformed, &generic),
        (PacFault::Integrity, &modified),
    ] {
        let held = |_: &Vec<u8>, _: u32| -> Result<Option<Vec<u8>>, PacFault> { Err(fault) };
        let r = verify_pac(&t, &pac, &server, kdc.clone(), true, &whole, &held, &good);
        assert_eq!(&r, refused);
        let cut = |_: &Vec<u8>, _: &Vec<u32>| -> Result<Vec<u8>, PacFault> { Err(fault) };
        let r = verify_pac(&t, &pac, &server, kdc.clone(), true, &cut, &none, &good);
        assert_eq!(&r, refused);
    }
    assert!(should_have_ticket_signature(&name(&["host", "a"])));
    assert!(!should_have_ticket_signature(&PrincipalName::krbtgt(REALM)));
    assert!(!should_have_ticket_signature(&name(&["kadmin", "changepw"])));
}

#[test]
fn older_keys_may_have_signed_a_pac() {
    let modified = || Err(proto(MODIFIED, Status::HeaderPac));
    assert_eq!(judge_pac_versions(3, Ok(()), &[]), Ok(()));
    assert_eq!(judge_pac_versions(3, modified(), &[Some(true)]), Ok(()));
    assert_eq!(judge_pac_versions(3, modified(), &[Some(false), Some(true)]), Ok(()));
    assert_eq!(judge_pac_versions(2, modified(), &[Some(false), Some(true)]), modified());
    assert_eq!(judge_pac_versions(3, modified(), &[None, Some(true)]), modified());
    assert_eq!(
        judge_pac_versions(3, Err(proto(GENERIC, Status::HeaderPac)), &[Some(true)]),
        Err(proto(GENERIC, Status::HeaderPac))
    );
}

#[test]
fn header_pacs_name_the_client() {
    let t = ticket(&["user"], true);
    let server = princ(&["host", "a"]);
    assert_eq!(check_normal_tgs_pac(&t, "user@KERBER.TEST", None, &server, false), Ok(()));
    assert_eq!(
        check_normal_tgs_pac(&t, "user@KERBER.TEST", Some(Ok(facts(1_000, "user"))), &server, false),
        Ok(())
    );
    assert_eq!(
        check_normal_tgs_pac(&t, "user@KERBER.TEST", Some(Ok(facts(1_001, "user"))), &server, false),
        Err(proto(BADOPTION, Status::HeaderPac))
    );
    assert!(pac_client_info_eq(&facts(5, "a@R"), 5, "a", Some("R")));
    assert!(!pac_client_info_eq(&facts(5, "a"), 5, "a", Some("R")));
    assert_eq!(
        pac_princ_with_realm(&facts(5, "a@b@R")),
        Some(("a@b".to_string(), "R".to_string(), 5))
    );
    assert_eq!(pac_princ_with_realm(&facts(5, "a")), None);
    let mut p = facts(5, "a@R");
    p.delegation = Some(DelegationInfo {
        proxy_target: "http/x".to_string(),
        transited_services: vec!["host/a@R".to_string()],
    });
    assert!(verify_deleg_pac(&p, 5, "host/a@R", Some("http/x")));
    assert!(verify_deleg_pac(&p, 5, "host/a@R", None));
    assert!(!verify_deleg_pac(&p, 5, "host/a@R", Some("http/y")));
    assert!(!verify_deleg_pac(&p, 6, "host/a@R", None));
}

#[test]
fn foreign_logons_hold_no_local_sid() {
    let sid = |n: u8, local: bool| Sid { octets: vec![n], local };
    let logon = |d: bool| LogonSids {
        domain: sid(1, d),
        extra: vec![sid(2, false), sid(3, true), sid(4, false)],
        resource_domain: Some(sid(5, true)),
        resource_groups: vec![7],
    };
    let out = filter_cross_realm_logon(logon(false)).unwrap();
    assert_eq!(out.extra, [sid(2, false), sid(4, false)]);
    assert!(out.resource_domain.is_none());
    assert!(filter_cross_realm_logon(logon(true)).is_err());
}

#[test]
fn s4u_data_are_found_and_judged() {
    let pa = |t: i32| PaData { padata_type: t, padata_value: vec![] };
    assert_eq!(find_s4u_padata(&[pa(1)]), S4uPadata::Absent);
    assert_eq!(find_s4u_padata(&[pa(1), pa(PA_FOR_USER)]), S4uPadata::ForUser(1));
    assert_eq!(
        find_s4u_padata(&[pa(PA_FOR_USER), pa(PA_FOR_X509_USER)]),
        S4uPadata::X509(1),
        "the certificate form wins"
    );
    let t = types();
    assert_eq!(verify_for_user_checksum(&t, 16, CksumOutcome::Good), Ok(()));
    assert_eq!(
        verify_for_user_checksum(&t, 14, CksumOutcome::Good),
        Err(proto(INAPP_CKSUM, Status::InvalidS4u2selfChecksum))
    );
    assert_eq!(
        verify_for_user_checksum(&t, 16, CksumOutcome::Integrity),
        Err(proto(MODIFIED, Status::InvalidS4u2selfChecksum))
    );
    // The name of the user as sent, and as encoded anew.
    let raw = vec![0x30, 0x05, 0xa0, 0x03, 1, 2, 3];
    let asked = x509_request(Some(&["alice"]), None);
    let run = |req: &X509User, nonce: u32, sent: CksumOutcome, anew: CksumOutcome| {
        let session = EncryptionKey { keytype: 18, keyvalue: vec![1; 32] };
        let sub = EncryptionKey { keytype: 18, keyvalue: vec![2; 32] };
        let check = |k: &EncryptionKey, usage: u32, over: &Vec<u8>, ty: i32, mac: &Vec<u8>| {
            assert_eq!((k, usage, ty), (&sub, KU_S4U_X509_REQUEST, req.cksumtype));
            assert_eq!(mac, &req.checksum);
            if *over == [1, 2, 3] {
                sent
            } else {
                assert_eq!(over, b"encoded");
                anew
            }
        };
        process_s4u_x509_user(
            &t,
            &raw,
            &session,
            &Some(sub.clone()),
            nonce,
            &|r: &Vec<u8>| {
                assert_eq!(*r, raw);
                Some(req.clone())
            },
            &|_: &EncryptionKey| Ok(()),
            &|id: &S4uUserId| {
                assert_eq!(id.other_options, Some(vec![true, false]), "every option as sent");
                Ok(b"encoded".to_vec())
            },
            &check,
        )
    };
    let (good, bad) = (CksumOutcome::Good, CksumOutcome::Integrity);
    assert_eq!(run(&asked, 9, bad, good), Ok(asked.clone()));
    assert_eq!(run(&asked, 9, good, bad), Ok(asked.clone()));
    assert_eq!(
        run(&asked, 8, good, good),
        Err(proto(MODIFIED, Status::InvalidS4u2selfChecksum))
    );
    assert_eq!(
        run(&x509_request(None, None), 9, good, good),
        Err(proto(C_PRINCIPAL_UNKNOWN, Status::InvalidS4u2selfRequest))
    );
    assert!(run(&x509_request(None, Some(b"cert")), 9, good, good).is_ok());
    assert_eq!(
        run(&asked, 9, bad, CksumOutcome::Failed),
        Err(proto(GENERIC, Status::InvalidS4u2selfChecksum))
    );
    let unkeyed = X509User { cksumtype: 14, ..asked };
    assert_eq!(
        run(&unkeyed, 9, good, good),
        Err(proto(INAPP_CKSUM, Status::InvalidS4u2selfChecksum))
    );
    let mut alice = princ(&["alice"]);
    alice.pw_expire = 5;
    alice.attributes = KDB_REQUIRES_PWCHANGE | 1;
    let s = s4u_from_userid(
        REALM,
        Some(name(&["alice"])),
        REALM.to_string(),
        false,
        Ok(Some(alice)),
    )
    .unwrap();
    let local = s.local.unwrap();
    assert_eq!((local.pw_expire, local.attributes), (0, 1));
    assert_eq!(
        s4u_from_userid(REALM, Some(name(&["x"])), REALM.to_string(), false, Ok(None)).err(),
        Some(proto(C_PRINCIPAL_UNKNOWN, Status::UnknownS4u2selfPrincipal))
    );
    assert_eq!(
        s4u_from_userid(REALM, None, REALM.to_string(), true, Ok(None)).err(),
        Some(proto(GENERIC, Status::LookingUpS4u2selfPrincipal))
    );
    assert!(s4u_from_userid(REALM, None, "O.TEST".to_string(), true, Ok(None))
        .unwrap()
        .local
        .is_none());
    assert_eq!(s4u_reply_usage(true), KU_S4U_X509_REPLY);
    assert_eq!(s4u_reply_usage(false), KU_S4U_X509_REQUEST);
}

fn x509_request(user: Option<&[&str]>, cert: Option<&[u8]>) -> X509User {
    X509User {
        user_id: S4uUserId {
            nonce: 9,
            user: user.map(name),
            realm: REALM.to_string(),
            subject_cert: cert.map(<[u8]>::to_vec),
            use_reply_key_usage: true,
            other_options: Some(vec![true, false]),
        },
        cksumtype: 16,
        checksum: vec![0; 12],
    }
}

/// Answers a request under a key, and tells what was encoded, the octets and
/// the usage of the checksum, and the data.
fn answer_x509(
    req: &X509User,
    key: &EncryptionKey,
) -> (X509User, (Vec<u8>, u32), PaData, Option<PaData>) {
    let encoded = std::cell::RefCell::new(None);
    let summed = std::cell::RefCell::new(None);
    let (pa, enc) = make_s4u2self_rep(
        req,
        key,
        &None,
        &|_: &EncryptionKey| Ok(()),
        &|id: &S4uUserId| Ok(format!("id {} {:?}", id.nonce, id.subject_cert).into_bytes()),
        &|k: &EncryptionKey, usage: u32, der: &Vec<u8>| {
            assert_eq!(k, key);
            *summed.borrow_mut() = Some((der.clone(), usage));
            Ok(vec![3; 12])
        },
        &|x: &X509User| {
            *encoded.borrow_mut() = Some(x.clone());
            Ok(b"answer".to_vec())
        },
    )
    .expect("rep");
    (encoded.into_inner().unwrap(), summed.into_inner().unwrap(), pa, enc)
}

#[test]
fn reply_130_omits_subject_cert() {
    let key = EncryptionKey { keytype: 18, keyvalue: vec![0x42; 32] };
    let mut req = x509_request(Some(&["user"]), Some(b"cert"));
    req.user_id.nonce = 1;
    let (rep, _, _, _) = answer_x509(&req, &key);
    assert!(rep.user_id.subject_cert.is_none());
    assert_eq!(rep.user_id.nonce, 1);
    assert!(rep.user_id.use_reply_key_usage);
}

#[test]
fn s4u_answers_carry_their_checksum() {
    let key = EncryptionKey { keytype: 18, keyvalue: vec![1; 32] };
    let mut req = x509_request(Some(&["user"]), None);
    let (rep, summed, pa, enc) = answer_x509(&req, &key);
    assert_eq!(rep.user_id.other_options, None, "other options are not answered");
    req.user_id.other_options = None;
    assert_eq!(rep, X509User { checksum: vec![3; 12], ..req.clone() });
    assert_eq!(summed, (b"id 9 None".to_vec(), KU_S4U_X509_REPLY));
    assert_eq!((pa.padata_type, pa.padata_value.as_slice()), (PA_FOR_X509_USER, &b"answer"[..]));
    assert_eq!(enc, None);
    req.user_id.use_reply_key_usage = false;
    let old = EncryptionKey { keytype: 23, keyvalue: vec![1; 16] };
    let (_, summed, _, enc) = answer_x509(&req, &old);
    assert_eq!(summed.1, KU_S4U_X509_REQUEST);
    let mut both = vec![0; 12];
    both.extend_from_slice(&[3; 12]);
    assert_eq!(enc, Some(PaData { padata_type: PA_FOR_X509_USER, padata_value: both }));
}

#[test]
fn users_acted_for_are_found() {
    let t = types();
    let session = EncryptionKey { keytype: 18, keyvalue: vec![1; 32] };
    let for_user = |realm: &str, cksumtype: i32| ForUser {
        user: name(&["alice"]),
        realm: realm.to_string(),
        cksumtype,
        checksum: vec![4; 12],
        signed: b"alice".to_vec(),
    };
    let run = |types_sent: &[i32], pa: ForUser, known: bool| {
        let pas: Vec<PaData> = types_sent
            .iter()
            .map(|ty| PaData { padata_type: *ty, padata_value: vec![0x30, 0] })
            .collect();
        let check = |k: &EncryptionKey, usage: u32, over: &Vec<u8>, _: i32, _: &Vec<u8>| {
            assert_eq!(*k, session);
            if usage == 17 {
                assert_eq!(over, b"alice");
            }
            CksumOutcome::Good
        };
        process_s4u2self_req(
            REALM,
            &t,
            &session,
            &None,
            &pas,
            9,
            &|_: &Vec<u8>| Some(x509_request(Some(&["bob"]), None)),
            &|_: &Vec<u8>| Some(pa.clone()),
            &|_: &EncryptionKey| Ok(()),
            &|_: &S4uUserId| Ok(b"encoded".to_vec()),
            &check,
            &|n: &PrincipalName| {
                let mut p = Principal::nobody();
                p.name = n.clone();
                p.pw_expire = 5;
                p.attributes = KDB_REQUIRES_PWCHANGE;
                Ok(if known { Some(p) } else { None })
            },
        )
    };
    assert_eq!(run(&[1], for_user(REALM, 16), true), Ok(None));
    let s = run(&[PA_FOR_USER], for_user(REALM, 16), true).unwrap().unwrap();
    assert_eq!((s.user.clone(), s.realm.as_str(), s.x509), (name(&["alice"]), REALM, None));
    let local = s.local.unwrap();
    assert_eq!((local.name, local.pw_expire, local.attributes), (name(&["alice"]), 0, 0));
    let s = run(&[PA_FOR_USER, PA_FOR_X509_USER], for_user(REALM, 16), true).unwrap().unwrap();
    assert_eq!(s.user, name(&["bob"]), "the certificate form wins");
    assert_eq!(s.x509, Some(x509_request(Some(&["bob"]), None)));
    let s = run(&[PA_FOR_USER], for_user("O.TEST", 16), false).unwrap().unwrap();
    assert!(s.local.is_none());
    assert_eq!(
        run(&[PA_FOR_USER], for_user(REALM, 16), false).err(),
        Some(proto(C_PRINCIPAL_UNKNOWN, Status::UnknownS4u2selfPrincipal))
    );
    assert_eq!(
        run(&[PA_FOR_USER], for_user(REALM, 14), true).err(),
        Some(proto(INAPP_CKSUM, Status::InvalidS4u2selfChecksum))
    );
}

#[test]
fn delegation_needs_evidence() {
    let svc = princ(&["host", "a"]);
    let header = ticket(&["host", "a"], true);
    let header_pac = Some(Ok(facts(1_000, "host/a")));
    let evidence = |fwd: bool, pac: Option<Result<PacFacts, Error>>| {
        Some(SecondTicket { part: ticket(&["alice"], fwd), server: princ(&["host", "a"]), pac })
    };
    let judge = |st: &Option<SecondTicket>, hp: &Option<Result<PacFacts, Error>>, sname: &[&str]| {
        check_tgs_s4u2proxy(
            &body(sname),
            &header,
            hp,
            st,
            Some(&svc),
            "alice@KERBER.TEST",
            Some("http/b"),
            REALM,
            false,
            false,
        )
    };
    let good = evidence(true, Some(Ok(facts(1_000, "alice"))));
    assert_eq!(judge(&good, &header_pac, &["http", "b"]), Ok(()));
    assert_eq!(
        judge(&None, &header_pac, &["http", "b"]),
        Err(proto(BADOPTION, Status::No2ndTkt))
    );
    assert_eq!(
        judge(&evidence(false, None), &header_pac, &["http", "b"]),
        Err(proto(BADOPTION, Status::EvidenceTktNotForwardable))
    );
    assert_eq!(
        judge(&good, &header_pac, &["krbtgt", REALM]),
        Err(proto(POLICY, Status::NotAllowedToDelegate))
    );
    assert_eq!(
        judge(&good, &None, &["http", "b"]),
        Err(proto(TGT_REVOKED, Status::S4u2proxyNoHeaderPac))
    );
    assert_eq!(
        judge(&evidence(true, None), &header_pac, &["http", "b"]),
        Err(proto(MODIFIED, Status::S4u2proxyNoStktPac))
    );
    let other = Some(SecondTicket {
        part: ticket(&["alice"], true),
        server: princ(&["host", "z"]),
        pac: Some(Ok(facts(1_000, "alice"))),
    });
    assert_eq!(
        judge(&other, &header_pac, &["http", "b"]),
        Err(proto(SERVER_NOMATCH, Status::EvidenceTicketMismatch))
    );
}

#[test]
fn delegation_is_listed() {
    let dest = name(&["http", "b"]);
    let me = name(&["host", "a"]);
    let mut imp = princ(&["host", "a"]);
    let mut res = princ(&["http", "b"]);
    let judge = |i: &Principal, r: &Principal, opt: Option<Result<bool, ()>>, cross: bool, refr: bool| {
        check_s4u2proxy_policy(&opt, &dest, &me, i, r, cross, refr)
    };
    assert_eq!(
        judge(&imp, &res, None, false, false),
        Err(proto(BADOPTION, Status::NotAllowedToDelegate))
    );
    assert_eq!(
        judge(&imp, &res, None, true, false),
        Err(proto(BADOPTION, Status::UnsupportedS4u2proxyRequest))
    );
    assert_eq!(
        judge(&imp, &res, Some(Err(())), false, false),
        Err(proto(BADOPTION, Status::InvalidS4u2proxyOptions))
    );
    assert_eq!(judge(&imp, &res, Some(Ok(true)), true, true), Ok(()));
    imp.s4u_allowed_to.push("http/b".to_string());
    assert_eq!(judge(&imp, &res, None, false, false), Ok(()));
    imp.s4u_allowed_to.clear();
    res.s4u_allowed_from.push("host/a".to_string());
    assert_eq!(judge(&imp, &res, Some(Ok(true)), true, false), Ok(()));
    assert!(judge(&imp, &res, Some(Ok(false)), false, false).is_err());
    let d = update_delegation_info(None, "http/b".to_string(), "host/a".to_string());
    let d = update_delegation_info(Some(d), "ldap/c".to_string(), "http/b".to_string());
    assert_eq!(d.proxy_target, "ldap/c");
    assert_eq!(d.transited_services, ["host/a", "http/b"]);
    let (n, realm) = rbcd_pac_client(&Ok(facts(1, "alice@O.TEST"))).unwrap();
    assert_eq!((n.name_type, n.name_string, realm), (
        NT_MS_PRINCIPAL,
        vec!["alice".to_string()],
        "O.TEST".to_string()
    ));
    assert_eq!(
        rbcd_pac_client(&Ok(facts(1, "alice"))).err(),
        Some(proto(BADOPTION, Status::RbcdPacPrinc))
    );
}

#[test]
fn pacs_are_found_in_tickets() {
    let datum = |t: i32, d: u8| AuthDatum { ad_type: t, ad_data: vec![d] };
    let v = vec![
        TicketDatum { datum: datum(5, 1), inner: None },
        TicketDatum { datum: datum(AD_IF_RELEVANT, 2), inner: None },
        TicketDatum {
            datum: datum(AD_IF_RELEVANT, 3),
            inner: Some(vec![datum(6, 4), datum(AD_WIN2K_PAC, 5)]),
        },
    ];
    assert_eq!(pac_from_ticket_part(&v), Some(vec![5]));
    assert_eq!(pac_from_ticket_part(&Vec::new()), None);
}

fn key(keytype: i32, octet: u8) -> EncryptionKey {
    EncryptionKey { keytype, keyvalue: vec![octet; 32] }
}

fn named(text: &String) -> Option<i32> {
    match text.as_str() {
        "aes256-cts" => Some(18),
        "aes256-sha2" => Some(20),
        "no-derivation" => Some(23),
        _ => None,
    }
}

/// Derives keys of one type.
fn derive(k: &EncryptionKey, label: &str, keytype: i32) -> Option<EncryptionKey> {
    assert_eq!(label, "pac_privsvr");
    if keytype == 20 {
        Some(key(20, k.keyvalue[0] + 100))
    } else {
        None
    }
}

#[test]
fn services_name_the_type_of_the_kdc_key() {
    let made = |text: Option<&str>| {
        let mut host = princ(&["host", "a"]);
        if let Some(t) = text {
            host.string_attrs = vec![
                ("other".to_string(), "aes256-sha2".to_string()),
                ("pac_privsvr_enctype".to_string(), t.to_string()),
            ];
        }
        pac_privsvr_key(&host, &key(18, 5), &named, &derive)
    };
    assert_eq!(made(None), Ok(key(18, 5)));
    assert_eq!(made(Some("aes256-cts")), Ok(key(18, 5)), "of the type that it has");
    assert_eq!(made(Some("aes256-sha2")), Ok(key(20, 105)));
    for t in ["unheard-of", "no-derivation"] {
        assert_eq!(made(Some(t)), Err(proto(GENERIC, Status::HeaderPac)));
    }
}

fn fresh() -> FreshPac {
    FreshPac {
        logon: vec![1],
        client_info: vec![2],
        upn_dns: vec![3],
        attributes: vec![4],
        requester_sid: vec![5],
    }
}

fn forms() -> (SignatureForm, SignatureForm) {
    (SignatureForm { cksumtype: 16, len: 2 }, SignatureForm { cksumtype: 20, len: 3 })
}

/// The forms of the signatures of two key types.
fn form(keytype: i32) -> SignatureForm {
    if keytype == 18 {
        forms().0
    } else {
        forms().1
    }
}

#[test]
fn reply_pacs_are_signed_in_order() {
    let (server, kdc) = (key(18, 3), key(20, 4));
    let checksum = |k: &EncryptionKey, usage: u32, input: &SignInput| {
        assert_eq!(usage, 17);
        let mut out = vec![k.keyvalue[0]];
        match input {
            SignInput::Octets(v) => out.extend_from_slice(v),
            SignInput::Pac(bs) => out.push(bs.len() as u8),
        }
        Ok(out)
    };
    let made =
        sign_reply_pac(None, None, fresh(), true, &server, &kdc, b"ticket", &form, &checksum)
            .unwrap();
    let kinds: Vec<u32> = made.iter().map(|b| b.kind).collect();
    assert_eq!(kinds, [1, 10, 12, 17, 18, 16, 19, 6, 7]);
    assert_eq!(made[5].data, signature_buffer(20, b"\x04ticket"));
    assert_eq!(made[6].data, signature_buffer(20, &[4, 9]));
    assert_eq!(made[7].data, signature_buffer(16, &[3, 9]));
    assert_eq!(made[8].data, signature_buffer(20, &[4, 3, 9]), "over the server signature");
}

#[test]
fn tgt_pacs_have_two_signatures() {
    let (server, kdc) = (key(18, 3), key(20, 4));
    let eights = |_: &EncryptionKey, _: u32, _: &SignInput| Ok(vec![8, 8]);
    let logon = Some(vec![9]);
    let made =
        sign_reply_pac(None, logon, fresh(), false, &server, &kdc, b"", &form, &eights).unwrap();
    let kinds: Vec<u32> = made.iter().map(|b| b.kind).collect();
    assert_eq!(kinds, [1, 10, 12, 17, 18, 6, 7]);
    assert_eq!(made[0].data, [9], "the logon information is replaced");
    let no_key = |k: &EncryptionKey, _: u32, _: &SignInput| {
        if *k == kdc {
            Err(Error::Crypto("no key".to_string()))
        } else {
            Ok(vec![])
        }
    };
    let failed = sign_reply_pac(None, None, fresh(), false, &server, &kdc, b"", &form, &no_key);
    assert_eq!(failed, Err(Error::Crypto("no key".to_string())));
}

#[test]
fn copied_pacs_lose_their_old_signatures() {
    let (server, kdc) = forms();
    let buf = |kind: u32, d: u8| PacBuffer { kind, data: vec![d] };
    let subject = vec![
        buf(PAC_SERVER_CHECKSUM, 1),
        buf(PAC_CLIENT_INFO, 2),
        buf(PAC_PRIVSVR_CHECKSUM, 3),
        buf(PAC_TICKET_CHECKSUM, 4),
        buf(PAC_FULL_CHECKSUM, 5),
        buf(99, 6),
    ];
    let s = PacSigning::start(Some(subject), Some(vec![7]), fresh(), false, server, kdc);
    let kinds: Vec<u32> = s.buffers.iter().map(|b| b.kind).collect();
    assert_eq!(kinds, [PAC_LOGON_INFO, PAC_CLIENT_INFO, 99, 6, 7]);
    assert_eq!(s.buffers[3].data, signature_buffer(16, &[0, 0]), "blank");
    assert_eq!(s.step, SignStep::Server);
}

#[test]
fn unsigned_server_buffers_cannot_be_countersigned() {
    let (server, kdc) = forms();
    let s = PacSigning { buffers: vec![], step: SignStep::Privsvr, server, kdc };
    assert_eq!(s.due(b""), Err(proto(GENERIC, Status::HeaderPac)));
    let cut = PacSigning {
        buffers: vec![PacBuffer { kind: PAC_SERVER_CHECKSUM, data: vec![1, 2, 3] }],
        step: SignStep::Privsvr,
        server,
        kdc,
    };
    assert_eq!(cut.due(b""), Err(proto(GENERIC, Status::HeaderPac)));
}

#[test]
fn der_is_walked_without_copying() {
    let raw = [0x30, 0x05, 0xa0, 0x03, 0x02, 0x01, 0x07];
    assert_eq!(take_der_slice(&raw, 0, 7), Some((0x30, 2, 7)));
    assert_eq!(take_der_slice(&raw, 0, 6), None, "cut short");
    assert_eq!(find_tagged(&raw, 2, 7, 0xa0), Some((4, 7)));
    assert_eq!(find_tagged(&raw, 2, 7, 0xa1), None);
    // [APPLICATION 10] SEQUENCE { [4] body }
    let req = [0x6a, 0x06, 0x30, 0x04, 0xa4, 0x02, 0x30, 0x00];
    assert_eq!(kdc_req_body_der(&req), Some((6, 8)));
    assert_eq!(kdc_req_body_der(&req[..6]), None);
    let userid = [0x30, 0x04, 0xa0, 0x02, 0x30, 0x00];
    assert_eq!(userid_der_from_pa(&userid), Some((4, 6)));
}

#[test]
fn header_pacs_are_verified_over_key_versions() {
    let entry = |kvno: u32| KeyEntry {
        etype: 18,
        kvno,
        key: vec![kvno as u8; 32],
        salt_type: None,
        kdb_salt: None,
    };
    let mut tgt = Principal::nobody();
    tgt.keys = vec![entry(2), entry(3)];
    tgt.key_history = vec![entry(1)];
    let host = princ(&["host", "a"]);
    let krbtgt = princ(&["krbtgt", REALM]);
    let tried = std::cell::RefCell::new(Vec::new());
    // The KDC's signatures are under one of its keys; `failed` is found of others.
    let verify = |server: &Principal, t: Option<&Principal>, pac: bool, under: u8, failed| {
        tried.borrow_mut().clear();
        get_verified_pac(
            &types(),
            &ticket(&["user"], false),
            &key(18, 50),
            server,
            t,
            &|_: &EncTicketPart| if pac { Some(b"pac".to_vec()) } else { None },
            &|_: &EncTicketPart| Ok(b"blank".to_vec()),
            &named,
            &derive,
            &|p: &Vec<u8>, _: &Vec<u32>| Ok(p.clone()),
            &|_: &Vec<u8>, _: u32| Ok(Some(signature_buffer(16, &[7; 12]))),
            &|k: &EncryptionKey, _: u32, _: &Vec<u8>, _: i32, _: &Vec<u8>| {
                tried.borrow_mut().push(k.keyvalue[0]);
                if *k == key(18, 50) || k.keyvalue[0] == under {
                    CksumOutcome::Good
                } else {
                    failed
                }
            },
        )
    };
    let whole = || Ok(Some(b"pac".to_vec()));
    let generic = || Err(proto(GENERIC, Status::HeaderPac));
    let modified = || Err(proto(MODIFIED, Status::HeaderPac));
    let run = |under: u8, t: &Principal| {
        verify(&host, Some(t), true, under, CksumOutcome::Integrity)
    };
    for under in [1, 2, 3] {
        assert_eq!(run(under, &tgt), whole(), "version {under}");
    }
    assert_eq!(run(9, &tgt), modified());
    let mut gap = tgt.clone();
    gap.keys.remove(0);
    assert_eq!(run(1, &gap), modified(), "no key of the version before");
    assert_eq!(verify(&host, None, false, 0, CksumOutcome::Failed), Ok(None));
    assert_eq!(verify(&krbtgt, None, true, 0, CksumOutcome::Failed), whole());
    assert_eq!(*tried.borrow(), [50], "a ticket-granting ticket has the one signature");
    assert_eq!(verify(&host, None, true, 0, CksumOutcome::Failed), generic());
    assert_eq!(run(1, &Principal::nobody()), generic());
    assert_eq!(verify(&host, Some(&tgt), true, 2, CksumOutcome::Failed), generic());
    assert!(!tried.borrow().contains(&2), "only a modified PAC is tried again");
    let mut other = host.clone();
    other.string_attrs = vec![("pac_privsvr_enctype".to_string(), "aes256-sha2".to_string())];
    assert_eq!(verify(&other, Some(&tgt), true, 103, CksumOutcome::Integrity), whole());
    assert_eq!(verify(&other, Some(&tgt), true, 3, CksumOutcome::Integrity), modified());
}

/// A PAC as octets: the kind, the length and the contents of each buffer.
fn octets_of(v: &[PacBuffer]) -> Vec<u8> {
    let mut out = Vec::new();
    for b in v {
        out.push(b.kind as u8);
        out.push(b.data.len() as u8);
        out.extend_from_slice(&b.data);
    }
    out
}

fn buffers_of(mut v: &[u8]) -> Vec<PacBuffer> {
    let mut out = Vec::new();
    while let [kind, n, rest @ ..] = v {
        let (data, after) = rest.split_at(usize::from(*n));
        out.push(PacBuffer { kind: u32::from(*kind), data: data.to_vec() });
        v = after;
    }
    out
}

fn checksum_of(k: &EncryptionKey, usage: u32, data: &[u8]) -> Vec<u8> {
    let mut h: u64 = 0xcbf2_9ce4_8422_2325 ^ u64::from(usage);
    for b in k.keyvalue.iter().chain(data.iter()) {
        h = (h ^ u64::from(*b)).wrapping_mul(0x0000_0100_0000_01b3);
    }
    let mut out = h.to_be_bytes().to_vec();
    out.extend_from_slice(&[1, 2, 3, 4]);
    out
}

#[test]
fn signed_pacs_are_accepted() {
    let (server, kdc) = (key(18, 3), key(18, 4));
    let signed = |service: bool| {
        let made = sign_reply_pac(
            None,
            None,
            fresh(),
            service,
            &server,
            &kdc,
            b"ticket",
            &|_: i32| SignatureForm { cksumtype: 16, len: 12 },
            &|k: &EncryptionKey, usage: u32, x: &SignInput| match x {
                SignInput::Octets(v) => Ok(checksum_of(k, usage, v)),
                SignInput::Pac(bs) => Ok(checksum_of(k, usage, &octets_of(bs))),
            },
        );
        octets_of(&made.unwrap())
    };
    let accept = |pac: &Vec<u8>, server: &EncryptionKey, kdc: &EncryptionKey, t: &[u8], service| {
        verify_pac_signatures(
            &types(),
            pac,
            server,
            &Some(kdc.clone()),
            Some(&t.to_vec()),
            service,
            &|p: &Vec<u8>, blank: &Vec<u32>| {
                let mut bs = buffers_of(p);
                for b in bs.iter_mut().filter(|b| blank.contains(&b.kind)) {
                    b.data[4..].fill(0);
                }
                Ok(octets_of(&bs))
            },
            &|p: &Vec<u8>, kind: u32| {
                Ok(buffers_of(p).into_iter().find(|b| b.kind == kind).map(|b| b.data))
            },
            &|k: &EncryptionKey, usage: u32, over: &Vec<u8>, _: i32, mac: &Vec<u8>| {
                if checksum_of(k, usage, over) == *mac {
                    CksumOutcome::Good
                } else {
                    CksumOutcome::Integrity
                }
            },
        )
    };
    let modified = Err(proto(MODIFIED, Status::HeaderPac));
    for service in [true, false] {
        let pac = signed(service);
        assert_eq!(accept(&pac, &server, &kdc, b"ticket", service), Ok(()));
        assert_eq!(accept(&pac, &kdc, &kdc, b"ticket", service), modified);
        assert_eq!(accept(&pac, &server, &server, b"ticket", service), modified);
        let mut altered = pac.clone();
        altered[2] ^= 1;
        assert_eq!(accept(&altered, &server, &kdc, b"ticket", service), modified);
    }
    assert_eq!(accept(&signed(true), &server, &kdc, b"other", true), modified);
}
