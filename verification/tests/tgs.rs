use krb5_kdc::ad::{CksumOutcome, CksumType, LogonSids};
use krb5_kdc::error::{
    proto, Error, Status, BADADDR, BADMATCH, BADOPTION, BAD_INTEGRITY, DISCARD, ETYPE_NOSUPP,
    GENERIC, ILL_CR_TKT, INAPP_CKSUM, PADATA_TYPE_NOSUPP, POLICY, PREAUTH_FAILED,
    PREAUTH_REQUIRED, SUMTYPE_NOSUPP, S_PRINCIPAL_UNKNOWN, TKT_EXPIRED, TKT_NYV, TRTYPE_NOSUPP,
    UNKNOWN_CRITICAL_FAST_OPTION,
};
use krb5_kdc::flags::{
    Flags, CANONICALIZE, CNAME_IN_ADDL_TKT, DISABLE_TRANSITED_CHECK, ENC_TKT_IN_SKEY, FORWARDABLE,
    INVALID, RENEW, RENEWABLE, TRANSITED_POLICY_CHECKED, VALIDATE,
};
use krb5_kdc::issue::header::{decrypt_presented_tgt, process_tgs_header, OpenedTicket};
use krb5_kdc::issue::kdc_util::{
    address_search, check_fast_options, fast_hides_client, find_authdata, find_server_key,
    include_pac_for_reply, judge_tgs_header, select_session_keytype, AuthCksum, AuthElement,
    Authenticator, HeaderOptions,
};
use krb5_kdc::issue::reply::{
    as_reply, enc_rep_part, extract_pa_tgs, fast_error_padata, fast_error_reply, fast_error_terms,
    handle_inner, krb_error, logged_error_text, reply_kind, return_enc_padata, tgs_header_client,
    tgs_issue_ticket, tgs_reply, Dispatch, ErrorReply, FastFacts, PacKey, ReplyKey, ReplyKind,
    KU_TGS_REP_SESSION, KU_TGS_REP_SUBKEY,
};
use krb5_kdc::issue::sprinc::{
    in_list, is_referral_req, search_sprinc, tgs_issuing_referral, HostFacts,
};
use krb5_kdc::issue::tgs_policy::SecondTicket;
use krb5_kdc::issue::tgs_req::{
    check_tgs_req, choose_tgs_keys, decrypt_2ndtkt, judge_transited, second_ticket_key,
    tgs_flags_times_policy, TgsFacts, TgsOutside, TgsRequest, TgsSubject, TicketKey,
    ANONYMOUS_REALM,
};
use krb5_kdc::kdb::{MemoryStore, PrincipalRead};
use krb5_kdc::msg::{
    EncTicketPart, EncryptedData, EncryptionKey, HostAddress, KdcReqBody, PaData, Ticket,
    TransitedEncoding, ADDRTYPE_INET, ADDRTYPE_NETBIOS, AD_CAMMAC, AD_FX_ARMOR, MSG_TGS_REQ,
    PA_FX_ERROR, PA_PAC_OPTIONS, PA_REQ_ENC_PA_REP, PA_TGS_REQ,
};
use krb5_kdc::name::{PrincipalName, NT_PRINCIPAL, NT_SRV_HST, NT_UNKNOWN};
use krb5_kdc::pac::PacFacts;
use krb5_kdc::store::{
    KeyEntry, Policy, Principal, KDB_DISALLOW_ALL_TIX, KDB_DISALLOW_SVR, KDB_NO_AUTH_DATA_REQUIRED,
};

const REALM: &str = "KERBER.TEST";

fn name(parts: &[&str]) -> PrincipalName {
    PrincipalName {
        name_type: NT_PRINCIPAL,
        name_string: parts.iter().map(|s| s.to_string()).collect(),
    }
}

fn policy() -> Policy {
    Policy {
        max_life: 36_000,
        max_renewable_life: 604_800,
        realm_max_renewable_life: 604_800,
        skew: 300,
        known_enctypes: vec![17, 18, 19, 20, 23],
        permitted_enctypes: vec![20, 18, 23],
        allow_des3: false,
        allow_rc4: false,
        disable_pac: false,
        restrict_anon: false,
        reject_bad_transit: true,
        host_based_services: "host, http".to_string(),
        no_host_referral: "ftp".to_string(),
        pkinit: false,
        spake_preauth_groups: Vec::new(),
        pkinit_indicators: Vec::new(),
        spake_preauth_indicators: Vec::new(),
        encrypted_challenge_indicator: None,
    }
}

fn key(etype: i32, kvno: u32) -> KeyEntry {
    KeyEntry { etype, kvno, key: vec![7; 32], salt_type: None, kdb_salt: None }
}

fn princ(parts: &[&str]) -> Principal {
    let mut p = Principal::nobody();
    p.name = name(parts);
    p.realm = REALM.to_string();
    p.keys = vec![key(18, 1)];
    p
}

fn options(bits: &[u32]) -> Flags {
    let mut o = Flags::none();
    for b in bits {
        o = o.with_bit(*b, true);
    }
    o
}

fn body(bits: &[u32]) -> KdcReqBody {
    KdcReqBody {
        kdc_options: options(bits),
        cname: None,
        realm: REALM.to_string(),
        sname: Some(name(&["host", "a.kerber.test"])),
        from: None,
        till: 0,
        rtime: None,
        nonce: 77,
        etype: vec![18],
        addresses: None,
    }
}

fn ticket(bits: &[u32]) -> EncTicketPart {
    EncTicketPart {
        flags: options(bits),
        key: EncryptionKey { keytype: 18, keyvalue: vec![1; 32] },
        crealm: REALM.to_string(),
        cname: name(&["user"]),
        transited: TransitedEncoding { tr_type: 1, contents: Vec::new() },
        authtime: 1_000,
        starttime: None,
        endtime: 30_000,
        renew_till: None,
        caddr: None,
        authorization_data: None,
    }
}

fn subject() -> TgsSubject {
    TgsSubject {
        s4u2self: false,
        s4u2proxy: false,
        is_referral: false,
        is_crossrealm: false,
        restart_count: false,
        cname: name(&["user"]),
        crealm: REALM.to_string(),
        s4u_subject: None,
        authtime: 1_000,
        stkt: None,
        s4u_local: None,
        s4u_x509: None,
        logon: None,
    }
}


fn no_host() -> HostFacts {
    HostFacts { numeric: false, realm: None }
}

#[test]
fn session_keytype_is_the_first_that_both_can_use() {
    let p = policy();
    let mut server = princ(&["host", "a"]);
    assert_eq!(select_session_keytype(&p, &server, None, &[17, 18]), Ok(18));
    assert_eq!(
        select_session_keytype(&p, &server, None, &[17, 20]),
        Err(proto(ETYPE_NOSUPP, Status::BadEncryptionType))
    );
    server.keys.push(key(20, 1));
    assert_eq!(select_session_keytype(&p, &server, None, &[20, 18]), Ok(20));
    assert_eq!(select_session_keytype(&p, &server, Some(&[18]), &[20, 18]), Ok(18));
    server.keys.push(key(23, 1));
    assert!(select_session_keytype(&p, &server, None, &[23]).is_err(), "rc4 is off");
}

#[test]
fn server_keys_are_found_by_version() {
    let p = policy();
    let mut server = princ(&["host", "a"]);
    server.keys = vec![key(18, 3), key(17, 3), key(18, 2)];
    assert_eq!(find_server_key(&p, &server, Some(18), 0), Some(0));
    assert_eq!(find_server_key(&p, &server, Some(18), 2), Some(2));
    assert_eq!(find_server_key(&p, &server, Some(18), 1), None);
    assert_eq!(find_server_key(&p, &server, Some(17), 0), None, "not permitted");
}

fn tgt_store(attributes: u32) -> MemoryStore {
    let mut tgs = princ(&["krbtgt", REALM]);
    tgs.keys = vec![key(18, 3), key(18, 2), key(18, 1)];
    for k in &mut tgs.keys {
        k.key = vec![k.kvno as u8; 32];
    }
    tgs.attributes = attributes;
    MemoryStore::from_principals(REALM.to_string(), policy(), vec![tgs])
}

fn presented(kvno: Option<u32>) -> Ticket {
    let mut t = sealed_ticket(&["krbtgt", REALM], 18);
    t.enc_part.kvno = kvno;
    t
}

/// Opens a ticket under the key of one version.
fn opens_under(kvno: u32) -> impl Fn(&EncryptionKey, u32, &Vec<u8>) -> Option<OpenedTicket> {
    move |k: &EncryptionKey, usage: u32, c: &Vec<u8>| {
        assert_eq!((k.keytype, usage, c.as_slice()), (18, 2, &[1, 2, 3][..]));
        if k.keyvalue[0] == kvno as u8 {
            Some(OpenedTicket { part: ticket(&[]), nested: None })
        } else {
            None
        }
    }
}

#[test]
fn header_ticket_keys_are_tried_downwards() {
    let store = tgt_store(0);
    let open = |kvno: Option<u32>, under: u32| {
        decrypt_presented_tgt(&store, &presented(kvno), &opens_under(under)).map(|r| r.1)
    };
    assert_eq!(open(None, 3), Ok(0));
    assert_eq!(open(None, 1), Ok(2));
    assert_eq!(open(Some(2), 2), Ok(1));
    assert_eq!(open(Some(2), 1), Err(proto(BAD_INTEGRITY, Status::ProcessTgs)));
    assert_eq!(open(None, 9), Err(proto(BAD_INTEGRITY, Status::ProcessTgs)));
    assert_eq!(open(Some(9), 9), Err(proto(GENERIC, Status::ProcessTgs)));
    let unknown = sealed_ticket(&["host", "a.kerber.test"], 18);
    assert_eq!(
        decrypt_presented_tgt(&store, &unknown, &opens_under(1)).map(|r| r.1),
        Err(proto(S_PRINCIPAL_UNKNOWN, Status::ProcessTgs))
    );
    assert_eq!(
        decrypt_presented_tgt(&tgt_store(KDB_DISALLOW_ALL_TIX), &presented(None), &opens_under(3))
            .map(|r| r.1),
        Err(proto(S_PRINCIPAL_UNKNOWN, Status::ProcessTgs))
    );
}

#[test]
fn tgs_header_is_opened_and_judged() {
    let store = tgt_store(0);
    let types = [CksumType { cksumtype: 16, keyed: true, size: 12 }];
    let sealed = EncryptedData { etype: 18, kvno: None, cipher: b"authenticator".to_vec() };
    let read = |k: &EncryptionKey, usage: u32, d: &EncryptedData| -> Result<Authenticator, Error> {
        assert_eq!((k, usage, d), (&ticket(&[]).key, 7, &sealed));
        Ok(authenticator())
    };
    let check = |k: &EncryptionKey, usage: u32, over: &Vec<u8>, ty: i32, mac: &Vec<u8>| {
        assert_eq!((k, usage, ty), (&ticket(&[]).key, 6, 16));
        assert_eq!(mac, &[6; 12]);
        if over == b"body" {
            CksumOutcome::Good
        } else {
            CksumOutcome::Integrity
        }
    };
    let over = |body: &[u8], options: HeaderOptions, known: Result<(), Error>, under: u32, now| {
        let t = presented(None);
        process_tgs_header(
            &store,
            &types,
            options,
            &t,
            known,
            &sealed,
            &body.to_vec(),
            &opens_under(under),
            &read,
            &check,
            None,
            now,
        )
        .map(|h| (h.tgt_key, h.header_server.id(), h.enc_tkt, h.authenticator.ctime))
    };
    let run = |options: HeaderOptions, known: Result<(), Error>, under: u32, now: u32| {
        over(b"body", options, known, under, now)
    };
    let plain = || HeaderOptions { use_session_key: false, mutual_required: false };
    let (at, id, part, ctime) = run(plain(), Ok(()), 2, 2_000).unwrap();
    assert_eq!((at, ctime), (1, 2_000));
    assert_eq!(id, "krbtgt/KERBER.TEST@KERBER.TEST");
    assert_eq!(part, ticket(&[]));
    let asked = HeaderOptions { use_session_key: true, mutual_required: false };
    assert_eq!(
        run(asked, Err(Error::Crypto("etype".to_string())), 2, 2_000).err(),
        Some(proto(POLICY, Status::ProcessTgs))
    );
    assert_eq!(
        run(plain(), Err(Error::Crypto("etype".to_string())), 2, 2_000).err(),
        Some(Error::Crypto("etype".to_string()))
    );
    assert_eq!(
        run(plain(), Ok(()), 9, 2_000).err(),
        Some(proto(BAD_INTEGRITY, Status::ProcessTgs))
    );
    assert_eq!(
        run(plain(), Ok(()), 3, 30_301).err(),
        Some(proto(TKT_EXPIRED, Status::ProcessTgs))
    );
    assert_eq!(
        over(b"other", plain(), Ok(()), 3, 2_000).err(),
        Some(proto(BAD_INTEGRITY, Status::ProcessTgs)),
        "the checksum is over another body"
    );
    let unread = |_: &EncryptionKey, _: u32, _: &EncryptedData| -> Result<Authenticator, Error> {
        Err(Error::Asn1("auth".to_string()))
    };
    let t = presented(None);
    let r = process_tgs_header(
        &store,
        &types,
        plain(),
        &t,
        Ok(()),
        &sealed,
        &b"body".to_vec(),
        &opens_under(3),
        &unread,
        &check,
        None,
        2_000,
    );
    assert_eq!(r.err(), Some(Error::Asn1("auth".to_string())));
}

#[test]
fn authdata_are_searched_inside_containers() {
    let ad = vec![
        AuthElement::Plain(5),
        AuthElement::IfRelevant(Some(vec![AuthElement::Plain(AD_FX_ARMOR)])),
    ];
    assert_eq!(find_authdata(&ad, AD_FX_ARMOR, false), Ok(true));
    assert_eq!(find_authdata(&ad, 6, false), Ok(false));
    let bad = vec![AuthElement::IfRelevant(None), AuthElement::Plain(5)];
    assert_eq!(find_authdata(&bad, 5, false), Err(()));
    let kdc = vec![AuthElement::Plain(AD_CAMMAC)];
    assert_eq!(find_authdata(&kdc, AD_CAMMAC, false), Ok(true));
    assert_eq!(find_authdata(&kdc, AD_CAMMAC, true), Ok(false), "only a KDC may put it there");
}

#[test]
fn ticket_addresses() {
    let here = HostAddress { addr_type: ADDRTYPE_INET, address: vec![127, 0, 0, 1] };
    let there = HostAddress { addr_type: ADDRTYPE_INET, address: vec![10, 0, 0, 1] };
    let netbios = HostAddress { addr_type: ADDRTYPE_NETBIOS, address: vec![65; 16] };
    assert!(address_search(&here, &None));
    assert!(address_search(&here, &Some(vec![there.clone(), here.clone()])));
    assert!(!address_search(&here, &Some(vec![there.clone()])));
    assert!(address_search(&here, &Some(vec![netbios.clone()])));
    assert!(!address_search(&here, &Some(vec![netbios, there])));
}

fn authenticator() -> Authenticator {
    Authenticator {
        cname: name(&["user"]),
        crealm: REALM.to_string(),
        ctime: 2_000,
        cusec: 0,
        cksum: Some(AuthCksum { cksumtype: 16, coll_proof: true, checksum: vec![6; 12] }),
        subkey: None,
        authorization_data: None,
    }
}

#[test]
fn tgs_headers_are_judged_in_order() {
    let p = policy();
    let types = [CksumType { cksumtype: 16, keyed: true, size: 12 }];
    let plain = || HeaderOptions { use_session_key: false, mutual_required: false };
    let judge_as = |a: Authenticator, t: EncTicketPart, o: CksumOutcome, now: u32| {
        judge_tgs_header(&p, &types, plain(), Ok((t, a)), &None, o, None, now).map(|_| ())
    };
    let judge =
        |a: Authenticator, t: EncTicketPart, now: u32| judge_as(a, t, CksumOutcome::Good, now);
    assert_eq!(judge(authenticator(), ticket(&[]), 2_000), Ok(()));
    assert_eq!(
        judge_tgs_header(
            &p,
            &types,
            HeaderOptions { use_session_key: false, mutual_required: true },
            Ok((ticket(&[]), authenticator())),
            &None,
            CksumOutcome::Good,
            None,
            2_000
        )
        .err(),
        Some(proto(POLICY, Status::ProcessTgs))
    );
    let mut a = authenticator();
    a.cusec = 1_000_000;
    assert_eq!(judge(a, ticket(&[]), 2_000), Err(proto(GENERIC, Status::ProcessTgs)));
    let mut a = authenticator();
    a.cname = name(&["other"]);
    assert_eq!(judge(a, ticket(&[]), 2_000), Err(proto(BADMATCH, Status::ProcessTgs)));
    assert_eq!(
        judge(authenticator(), ticket(&[]), 699),
        Err(proto(TKT_NYV, Status::ProcessTgs))
    );
    assert_eq!(judge(authenticator(), ticket(&[]), 700), Ok(()), "within the skew");
    assert_eq!(judge(authenticator(), ticket(&[]), 30_300), Ok(()));
    assert_eq!(
        judge(authenticator(), ticket(&[]), 30_301),
        Err(proto(TKT_EXPIRED, Status::ProcessTgs))
    );
    let mut a = authenticator();
    a.authorization_data = Some(vec![AuthElement::Plain(AD_FX_ARMOR)]);
    assert_eq!(
        judge(a, ticket(&[]), 2_000),
        Err(Error::Protocol {
            code: POLICY,
            text: Some(Status::ProcessTgs),
            e_data: None,
            detail: Some("ticket valid only as FAST armor".to_string()),
        })
    );
    let mut a = authenticator();
    a.cksum = None;
    assert_eq!(judge(a, ticket(&[]), 2_000), Err(proto(INAPP_CKSUM, Status::ProcessTgs)));
    let mut a = authenticator();
    a.cksum = Some(AuthCksum { cksumtype: 99, coll_proof: true, checksum: vec![6; 12] });
    assert_eq!(judge(a, ticket(&[]), 2_000), Err(proto(SUMTYPE_NOSUPP, Status::ProcessTgs)));
    assert_eq!(
        judge_as(authenticator(), ticket(&[]), CksumOutcome::Integrity, 2_000),
        Err(proto(BAD_INTEGRITY, Status::ProcessTgs))
    );
    let here = HostAddress { addr_type: ADDRTYPE_INET, address: vec![127, 0, 0, 1] };
    let mut t = ticket(&[]);
    t.caddr = Some(vec![HostAddress { addr_type: ADDRTYPE_INET, address: vec![10, 0, 0, 1] }]);
    assert_eq!(
        judge_tgs_header(
            &p,
            &types,
            plain(),
            Ok((t, authenticator())),
            &None,
            CksumOutcome::Good,
            Some(&here),
            2_000
        )
        .err(),
        Some(proto(BADADDR, Status::ProcessTgs))
    );
}

#[test]
fn pac_is_wanted_or_not() {
    let mut p = policy();
    let mut server = princ(&["host", "a"]);
    assert!(include_pac_for_reply(&p, &server, true, None, false, false));
    assert!(!include_pac_for_reply(&p, &server, true, Some(false), false, false));
    assert!(include_pac_for_reply(&p, &server, false, Some(false), true, false));
    assert!(!include_pac_for_reply(&p, &server, false, None, false, false));
    assert!(!include_pac_for_reply(&p, &server, true, None, true, true));
    server.attributes = KDB_NO_AUTH_DATA_REQUIRED;
    assert!(!include_pac_for_reply(&p, &server, true, None, true, false));
    server.attributes = 0;
    p.disable_pac = true;
    assert!(!include_pac_for_reply(&p, &server, true, None, true, false));
}

#[test]
fn fast_options() {
    assert_eq!(check_fast_options(&[false, true]), Ok(()));
    assert_eq!(
        check_fast_options(&[true]),
        Err(proto(UNKNOWN_CRITICAL_FAST_OPTION, Status::FastOption))
    );
    let mut opts = vec![false; 20];
    opts[16] = true;
    assert_eq!(check_fast_options(&opts), Ok(()), "bit 16 is not critical");
    assert!(fast_hides_client(&[false, true]));
    assert!(!fast_hides_client(&[true]));
}

#[test]
fn lists_hold_whole_items() {
    assert!(in_list("host, http", "host"));
    assert!(in_list("host, http", "http"));
    assert!(!in_list("host, http", "htt"));
    assert!(!in_list("", ""));
}

#[test]
fn referrals_need_a_host_based_name() {
    let p = policy();
    let mut host = name(&["host", "a.other.test"]);
    assert!(!is_referral_req(&p, &body(&[CANONICALIZE]), &host), "a user name");
    host.name_type = NT_SRV_HST;
    assert!(is_referral_req(&p, &body(&[CANONICALIZE]), &host));
    assert!(!is_referral_req(&p, &body(&[]), &host));
    assert!(!is_referral_req(&p, &body(&[CANONICALIZE, ENC_TKT_IN_SKEY]), &host));
    host.name_type = NT_UNKNOWN;
    assert!(is_referral_req(&p, &body(&[CANONICALIZE]), &host));
    host.name_string[0] = "smtp".to_string();
    assert!(!is_referral_req(&p, &body(&[CANONICALIZE]), &host));
    let mut ftp = name(&["ftp", "a.other.test"]);
    ftp.name_type = NT_SRV_HST;
    assert!(!is_referral_req(&p, &body(&[CANONICALIZE]), &ftp));
}

#[test]
fn servers_are_searched_and_referred() {
    let store = MemoryStore::from_principals(
        REALM.to_string(),
        policy(),
        vec![
            princ(&["host", "a.kerber.test"]),
            princ(&["krbtgt", "OTHER.TEST"]),
            princ(&["krbtgt", "MID.TEST"]),
        ],
    );
    let known = name(&["host", "a.kerber.test"]);
    let found = search_sprinc(&store, &known, REALM, &body(&[]), &no_host(), &[]).unwrap();
    assert_eq!(found.id(), "host/a.kerber.test@KERBER.TEST");
    assert!(!tgs_issuing_referral(&known, REALM, found));
    let mut other = name(&["host", "b.other.test"]);
    other.name_type = NT_SRV_HST;
    let there = HostFacts { numeric: false, realm: Some("OTHER.TEST".to_string()) };
    let found = search_sprinc(&store, &other, REALM, &body(&[CANONICALIZE]), &there, &[]).unwrap();
    assert_eq!(found.id(), "krbtgt/OTHER.TEST@KERBER.TEST");
    assert!(tgs_issuing_referral(&other, REALM, found));
    assert_eq!(
        search_sprinc(&store, &other, REALM, &body(&[]), &there, &[]).err(),
        Some(proto(S_PRINCIPAL_UNKNOWN, Status::LookingUpServer))
    );
    let far = PrincipalName::krbtgt("FAR.TEST");
    let hops = vec![REALM.to_string(), "MID.TEST".to_string(), "FAR.TEST".to_string()];
    let found = search_sprinc(&store, &far, REALM, &body(&[]), &no_host(), &hops).unwrap();
    assert_eq!(found.id(), "krbtgt/MID.TEST@KERBER.TEST");
    assert_eq!(
        search_sprinc(&store, &far, REALM, &body(&[]), &no_host(), &[]).err(),
        Some(proto(S_PRINCIPAL_UNKNOWN, Status::UnknownServer))
    );
}

#[test]
fn transit_is_checked() {
    let p = policy();
    let server = princ(&["host", "a.kerber.test"]);
    let sname = server.name.clone();
    let tgt = PrincipalName::krbtgt(REALM);
    let mut t = ticket(&[]);
    let mut s = subject();
    let appended = || Ok(TransitedEncoding { tr_type: 1, contents: b"MID.TEST".to_vec() });
    let judge = |s: &TgsSubject,
                 t: &EncTicketPart,
                 b: &KdcReqBody,
                 header_realm: &str,
                 a: Result<TransitedEncoding, ()>,
                 ok: bool| {
        let req = TgsRequest {
            body: b,
            header_sname: &tgt,
            header_realm,
            enc_tkt: t,
            sname: &sname,
            req_realm: REALM,
            server: &server,
        };
        judge_transited(&p, s, &req, a, ok)
    };
    let (tr, marked) = judge(&s, &t, &body(&[]), REALM, Err(()), true).unwrap();
    assert_eq!(tr.contents, b"");
    assert!(marked);
    assert_eq!(
        judge(&s, &t, &body(&[DISABLE_TRANSITED_CHECK]), REALM, Err(()), true),
        Err(proto(POLICY, Status::BadTransit))
    );
    assert_eq!(
        judge(&s, &t, &body(&[]), REALM, Err(()), false),
        Err(proto(POLICY, Status::BadTransit))
    );
    s.is_crossrealm = true;
    t.crealm = "CLIENT.TEST".to_string();
    let (tr, _) = judge(&s, &t, &body(&[]), "MID.TEST", appended(), true).unwrap();
    assert_eq!(tr.contents, b"MID.TEST");
    assert_eq!(
        judge(&s, &t, &body(&[]), "MID.TEST", Err(()), true),
        Err(proto(ILL_CR_TKT, Status::AddToTransitedList))
    );
    t.transited.tr_type = 0;
    assert_eq!(
        judge(&s, &t, &body(&[]), "MID.TEST", appended(), true),
        Err(proto(TRTYPE_NOSUPP, Status::ValidateTransitType))
    );
    let mut anon = ticket(&[]);
    anon.crealm = ANONYMOUS_REALM.to_string();
    assert!(judge(&subject(), &anon, &body(&[]), REALM, Err(()), false).unwrap().1);
    let marked = ticket(&[TRANSITED_POLICY_CHECKED]);
    assert!(!judge(&subject(), &marked, &body(&[RENEW]), REALM, Err(()), false).unwrap().1);
}

#[test]
fn ticket_keys_are_chosen() {
    let p = policy();
    let server = princ(&["host", "a.kerber.test"]);
    let k = choose_tgs_keys(&p, &body(&[]), &server, &None, None, Ok(())).unwrap();
    assert_eq!(k.session_etype, 18);
    assert_eq!(k.ticket_key, TicketKey::ServerKey(0));
    assert_eq!((k.ticket_kvno, k.ticket_etype), (1, 18));
    assert_eq!(
        choose_tgs_keys(&p, &body(&[ENC_TKT_IN_SKEY]), &server, &None, None, Ok(())),
        Err(proto(BADOPTION, Status::No2ndTkt))
    );
    let mut part = ticket(&[]);
    part.key.keytype = 18;
    let stkt = Some(SecondTicket { part, server: princ(&["krbtgt", REALM]), pac: None });
    let k =
        choose_tgs_keys(&p, &body(&[ENC_TKT_IN_SKEY]), &server, &stkt, None, Ok(())).unwrap();
    assert_eq!(k.ticket_key, TicketKey::SecondTicketSession);
    assert_eq!((k.session_etype, k.ticket_kvno), (18, 0));
    let mut part = ticket(&[]);
    part.key.keytype = 99;
    let stkt = Some(SecondTicket { part, server: princ(&["krbtgt", REALM]), pac: None });
    assert_eq!(
        choose_tgs_keys(&p, &body(&[ENC_TKT_IN_SKEY]), &server, &stkt, None, Ok(())),
        Err(proto(ETYPE_NOSUPP, Status::BadEtypeIn2ndTkt))
    );
    let mut keyless = princ(&["host", "b"]);
    keyless.keys.clear();
    assert_eq!(
        choose_tgs_keys(&p, &body(&[]), &keyless, &None, Some(&[18]), Ok(())),
        Err(proto(GENERIC, Status::FindingServerKey))
    );
}

#[test]
fn renewal_keeps_the_length_and_stays_within_renew_till() {
    let p = policy();
    let mut server = princ(&["krbtgt", REALM]);
    server.max_renewable_life = 604_800;
    let mut t = ticket(&[RENEWABLE, FORWARDABLE]);
    t.renew_till = Some(100_000);
    let times = tgs_flags_times_policy(
        &p,
        &body(&[RENEW]),
        &t,
        None,
        &server,
        1_000,
        false,
        false,
        Ok(()),
        20_000,
    )
    .unwrap();
    assert_eq!((times.authtime, times.starttime, times.endtime), (1_000, 20_000, 49_000));
    assert!(times.flags.bit(FORWARDABLE));
    t.renew_till = Some(40_000);
    let times = tgs_flags_times_policy(
        &p,
        &body(&[RENEW]),
        &t,
        None,
        &server,
        1_000,
        false,
        false,
        Ok(()),
        20_000,
    )
    .unwrap();
    assert_eq!(times.endtime, 40_000);
    let fixed = ticket(&[]);
    assert_eq!(
        tgs_flags_times_policy(
            &p,
            &body(&[RENEW]),
            &fixed,
            None,
            &server,
            1_000,
            false,
            false,
            Ok(()),
            20_000
        )
        .err(),
        Some(proto(BADOPTION, Status::TicketNotRenewable))
    );
}

#[test]
fn validation_clears_invalid_only() {
    let p = policy();
    let server = princ(&["krbtgt", REALM]);
    let mut t = ticket(&[INVALID, FORWARDABLE]);
    t.starttime = Some(5_000);
    let times = tgs_flags_times_policy(
        &p,
        &body(&[VALIDATE]),
        &t,
        None,
        &server,
        1_000,
        false,
        false,
        Ok(()),
        6_000,
    )
    .unwrap();
    assert_eq!((times.authtime, times.starttime, times.endtime), (1_000, 5_000, 30_000));
    assert_eq!(times.flags, options(&[FORWARDABLE]));
}

#[test]
fn policy_modules_refuse_tickets() {
    let p = policy();
    let server = princ(&["host", "a"]);
    assert_eq!(
        tgs_flags_times_policy(
            &p,
            &body(&[]),
            &ticket(&[]),
            None,
            &server,
            1_000,
            false,
            false,
            Err(proto(POLICY, Status::Kdcpolicy)),
            6_000
        )
        .err(),
        Some(proto(POLICY, Status::Kdcpolicy))
    );
}

fn outside() -> TgsOutside {
    TgsOutside {
        s4u: Ok(None),
        stkt: Ok(None),
        header_pac: None,
        logon: None,
        header_client: "user".to_string(),
        evidence_client: String::new(),
        target: None,
    }
}

#[test]
fn a_plain_request_is_checked_and_laid_out() {
    let server = princ(&["host", "a.kerber.test"]);
    let tgs = princ(&["krbtgt", REALM]);
    let store = MemoryStore::from_principals(
        REALM.to_string(),
        policy(),
        vec![princ(&["user"]), server.clone(), tgs.clone()],
    );
    let b = body(&[FORWARDABLE]);
    let t = ticket(&[FORWARDABLE]);
    let tgt = PrincipalName::krbtgt(REALM);
    let req = TgsRequest {
        body: &b,
        header_sname: &tgt,
        header_realm: REALM,
        enc_tkt: &t,
        sname: &server.name,
        req_realm: REALM,
        server: &server,
    };
    let read = |_: &Vec<u8>| Err("unread".to_string());
    let write = |v: &Vec<u8>, _: &LogonSids| v.clone();
    let append = |_: &TransitedEncoding, _: &str, _: &str, _: &str| Err(());
    let allow = |t: &TransitedEncoding, from: &str, to: &str| {
        assert_eq!((t, from, to), (&req.enc_tkt.transited, REALM, REALM));
        true
    };
    let get = |part: &EncTicketPart, p: &Principal, k: &EncryptionKey| {
        assert_eq!((part, &p.name), (&t, &tgs.name));
        assert_eq!((k.keytype, &k.keyvalue), (tgs.keys[0].etype, &tgs.keys[0].key));
        Ok(vec!["otp".to_string()])
    };
    let facts = || TgsFacts {
        pac_options: None,
        session_enctypes: None,
        u2u_key: Ok(()),
    };
    let (s, checked) =
        check_tgs_req(
            &store,
            &req,
            outside(),
            facts(),
            Some(&tgs),
            2_000,
            &read,
            &write,
            &append,
            &allow,
            &get,
        )
        .unwrap();
    assert!(!s.s4u2self && !s.s4u2proxy && !s.is_referral && !s.is_crossrealm);
    assert_eq!(s.cname, name(&["user"]));
    assert_eq!(checked.indicators, ["otp"]);
    assert_eq!(checked.keys.ticket_key, TicketKey::ServerKey(0));
    assert!(checked.set_transited_flag);
    assert_eq!(
        check_tgs_req(
            &store,
            &req,
            outside(),
            facts(),
            None,
            2_000,
            &read,
            &write,
            &append,
            &allow,
            &get,
        )
        .err(),
        Some(proto(GENERIC, Status::GetLocalTgt))
    );
    let plan = tgs_issue_ticket(
        store.policy(),
        REALM,
        &req,
        &s,
        Flags::none(),
        true,
        true,
        &[PaData { padata_type: PA_REQ_ENC_PA_REP, padata_value: Vec::new() }],
        None,
    );
    assert_eq!(plan.sname, server.name);
    assert_eq!(plan.pac_key, PacKey::LocalTgt);
    assert!(plan.include_pac && plan.copies_pac && plan.want_enc_pa);
    assert!(plan.client_info.is_none());
    assert_eq!((plan.reply_key, plan.usage), (ReplyKey::Subkey, KU_TGS_REP_SUBKEY));
    assert_eq!(plan.nonce, 77);
    assert_eq!(plan.rep_cname, name(&["user"]));
    let armor = EncryptionKey { keytype: 18, keyvalue: vec![3; 32] };
    let hide =
        FastFacts { options: &[false, true], nonce: 5, padata: &[], armor_key: &armor };
    let mut closed = server.clone();
    closed.attributes = KDB_NO_AUTH_DATA_REQUIRED;
    let bare = TgsRequest { server: &closed, ..req };
    let plan_for = |s: &TgsSubject| {
        tgs_issue_ticket(store.policy(), REALM, &bare, s, Flags::none(), true, true, &[], None)
            .include_pac
    };
    assert!(!plan_for(&s));
    let on_behalf = TgsSubject { s4u2self: true, ..subject() };
    assert!(plan_for(&on_behalf), "a request on behalf of a user gets authorization data");
    let req = TgsRequest { server: &server, ..bare };
    let plan = tgs_issue_ticket(
        store.policy(),
        REALM,
        &req,
        &s,
        Flags::none(),
        false,
        false,
        &[],
        Some(&hide),
    );
    assert_eq!((plan.reply_key, plan.usage), (ReplyKey::Session, KU_TGS_REP_SESSION));
    assert_eq!(plan.nonce, 5);
    assert!(!plan.include_pac && !plan.want_enc_pa);
    assert!(plan.rep_cname.is_anonymous());
    assert_eq!(plan.rep_crealm, ANONYMOUS_REALM);
}

#[test]
fn tickets_and_replies_are_assembled() {
    let p = policy();
    let server = princ(&["host", "a.kerber.test"]);
    let times = tgs_flags_times_policy(
        &p,
        &body(&[]),
        &ticket(&[]),
        None,
        &server,
        1_000,
        true,
        false,
        Ok(()),
        2_000,
    )
    .unwrap();
    assert!(times.flags.bit(TRANSITED_POLICY_CHECKED));
    let session = EncryptionKey { keytype: 18, keyvalue: vec![9; 32] };
    let rep = enc_rep_part(
        session,
        77,
        times,
        REALM.to_string(),
        server.name.clone(),
        None,
        None,
        None,
    );
    assert_eq!((rep.nonce, rep.authtime, rep.endtime), (77, 1_000, 30_000));
    assert_eq!(rep.starttime, Some(2_000));
}

#[test]
fn errors_name_client_and_server() {
    let mut b = body(&[]);
    b.cname = Some(name(&["user"]));
    let e = krb_error(REALM, "INVALID", 7, Some(Status::LookingUpServer), None, Some(&b), false);
    assert_eq!(e.error_code, 7);
    assert_eq!(e.realm, REALM);
    assert_eq!(e.sname, name(&["host", "a.kerber.test"]));
    assert_eq!(e.cname, Some(name(&["user"])));
    assert_eq!(e.crealm.as_deref(), Some(REALM));
    let e = krb_error(REALM, "INVALID", 7, None, None, Some(&b), true);
    assert!(e.cname.unwrap().is_anonymous());
    assert_eq!(e.crealm.as_deref(), Some(ANONYMOUS_REALM));
    let e = krb_error(REALM, "INVALID", -5, None, None, None, false);
    assert_eq!(e.error_code, GENERIC, "a code that is no protocol error");
    assert_eq!(e.sname, PrincipalName::krbtgt(REALM));
    b.realm = "R\u{c4}".to_string();
    assert_eq!(krb_error(REALM, "INVALID", 7, None, None, Some(&b), false).realm, "INVALID");
}

#[test]
fn failures_become_replies() {
    assert_eq!(
        as_reply(Error::PreauthRequired { e_data: vec![1] }),
        ErrorReply::Refusal {
            code: PREAUTH_REQUIRED,
            text: Some(Status::NeededPreauth),
            e_data: Some(vec![1]),
            detail: None
        }
    );
    assert_eq!(
        as_reply(Error::Crypto("bad".to_string())),
        ErrorReply::Refusal {
            code: PREAUTH_FAILED,
            text: Some(Status::PreauthFailed),
            e_data: None,
            detail: Some("bad".to_string())
        }
    );
    assert_eq!(
        tgs_reply(Error::Crypto("bad".to_string())),
        ErrorReply::Refusal {
            code: BAD_INTEGRITY,
            text: Some(Status::ProcessTgs),
            e_data: None,
            detail: Some("bad".to_string())
        }
    );
    assert_eq!(
        as_reply(Error::Protocol { code: DISCARD, text: None, e_data: None, detail: None }),
        ErrorReply::Silence { detail: None }
    );
    assert!(matches!(
        as_reply(Error::NotFound),
        ErrorReply::Refusal { code: GENERIC, text: Some(Status::UnknownReason), .. }
    ));
    assert!(matches!(
        tgs_reply(Error::Asn1(String::new())),
        ErrorReply::Refusal { code: GENERIC, text: Some(Status::ProcessTgs), detail: None, .. }
    ));
}

#[test]
fn requests_are_told_apart_by_their_first_octet() {
    assert_eq!(handle_inner(&[0x6a, 1], Some(5), None), Dispatch::As);
    assert_eq!(handle_inner(&[0x6c, 1], None, Some(5)), Dispatch::Tgs);
    assert_eq!(handle_inner(&[0x6a, 1], Some(4), None), Dispatch::Drop);
    assert_eq!(handle_inner(&[0x6a, 1], None, Some(5)), Dispatch::Drop);
    assert_eq!(handle_inner(&[], None, None), Dispatch::Drop);
    assert_eq!(reply_kind(&[]), ReplyKind::Nothing);
    assert_eq!(reply_kind(&[0x7e]), ReplyKind::Refused);
    assert_eq!(reply_kind(&[0x6b]), ReplyKind::Issued);
    assert_eq!(logged_error_text(PREAUTH_REQUIRED, String::new()), "NEEDED_PREAUTH");
    assert_eq!(logged_error_text(GENERIC, String::new()), "");
    let pa = [PaData { padata_type: 9, padata_value: vec![] }, PaData {
        padata_type: PA_TGS_REQ,
        padata_value: vec![],
    }];
    assert_eq!(extract_pa_tgs(MSG_TGS_REQ, &pa), Ok(1));
    assert_eq!(
        extract_pa_tgs(MSG_TGS_REQ, &pa[..1]),
        Err(proto(PADATA_TYPE_NOSUPP, Status::ProcessTgs))
    );
}

#[test]
fn fast_errors_keep_their_code() {
    let terms = fast_error_terms(proto(POLICY, Status::Kdcpolicy));
    assert_eq!(terms.code, POLICY);
    let pas = fast_error_padata(Vec::new(), vec![3]);
    assert_eq!(pas[0].padata_type, PA_FX_ERROR);
    assert_eq!(
        fast_error_reply(terms, Ok(vec![8])),
        Error::Protocol {
            code: POLICY,
            text: Some(Status::Kdcpolicy),
            e_data: Some(vec![8]),
            detail: None
        }
    );
    let terms = fast_error_terms(Error::PreauthRequired { e_data: vec![1] });
    assert_eq!(fast_error_reply(terms, Ok(vec![8])), Error::PreauthRequired { e_data: vec![8] });
    let terms = fast_error_terms(Error::Rng);
    assert_eq!(terms.code, GENERIC);
    assert_eq!(fast_error_reply(terms, Err(Error::Rng)), Error::Rng);
}

fn sealed_ticket(parts: &[&str], etype: i32) -> Ticket {
    Ticket {
        tkt_vno: 5,
        realm: REALM.to_string(),
        sname: name(parts),
        enc_part: EncryptedData { etype, kvno: Some(1), cipher: vec![1, 2, 3] },
    }
}

#[test]
fn second_ticket_is_found_by_its_server() {
    let mut closed = princ(&["closed"]);
    closed.attributes = KDB_DISALLOW_SVR;
    let store = MemoryStore::from_principals(
        REALM.to_string(),
        policy(),
        vec![princ(&["host", "a.kerber.test"]), closed],
    );
    let t = sealed_ticket(&["host", "a.kerber.test"], 18);
    assert_eq!(second_ticket_key(&store, options(&[]), Some(&t)), Ok(None));
    for bit in [CNAME_IN_ADDL_TKT, ENC_TKT_IN_SKEY] {
        let o = options(&[bit]);
        assert_eq!(second_ticket_key(&store, o, None), Ok(None));
        let (server, at) = second_ticket_key(&store, o, Some(&t)).unwrap().unwrap();
        assert_eq!(server.name, name(&["host", "a.kerber.test"]));
        assert_eq!(at, 0);
        for parts in [&["nobody"], &["closed"]] {
            assert_eq!(
                second_ticket_key(&store, o, Some(&sealed_ticket(parts, 18))),
                Err(proto(S_PRINCIPAL_UNKNOWN, Status::SecondTktServer))
            );
        }
        for etype in [17, 99] {
            let odd = sealed_ticket(&["host", "a.kerber.test"], etype);
            assert_eq!(
                second_ticket_key(&store, o, Some(&odd)),
                Err(proto(GENERIC, Status::SecondTktServer))
            );
        }
    }
}

/// Opens a second ticket for a server, with or without the local ticket-granting
/// service; `pac` is what it holds.
fn open_second(
    t: &Ticket,
    server: Principal,
    opens: bool,
    local: Option<&Principal>,
    pac: Option<&[u8]>,
) -> Result<SecondTicket, Error> {
    decrypt_2ndtkt(
        &[CksumType { cksumtype: 16, keyed: true, size: 1 }],
        t,
        server,
        0,
        local,
        &|k: &EncryptionKey, usage: u32, c: &Vec<u8>| {
            assert_eq!((k.keytype, usage, c.as_slice()), (18, 2, &[1, 2, 3][..]));
            if opens {
                Some(ticket(&[]))
            } else {
                None
            }
        },
        &|_: &Vec<u8>| Ok(PacFacts { client_info: None, delegation: None }),
        &|_: &EncTicketPart| pac.map(<[u8]>::to_vec),
        &|_: &EncTicketPart| Ok(b"blank".to_vec()),
        &|_: &String| None,
        &|_: &EncryptionKey, _: &str, _: i32| None,
        &|p: &Vec<u8>, _: &Vec<u32>| Ok(p.clone()),
        &|_: &Vec<u8>, _: u32| Ok(Some(vec![16, 0, 0, 0, 5])),
        &|_: &EncryptionKey, usage: u32, _: &Vec<u8>, ty: i32, mac: &Vec<u8>| {
            assert_eq!((usage, ty, mac.as_slice()), (17, 16, &[5][..]));
            if pac == Some(&b"good"[..]) {
                CksumOutcome::Good
            } else {
                CksumOutcome::Failed
            }
        },
    )
}

#[test]
fn second_ticket_is_opened_and_its_pac_checked() {
    let t = sealed_ticket(&["host", "a.kerber.test"], 18);
    let server = princ(&["host", "a.kerber.test"]);
    let tgs = princ(&["krbtgt", REALM]);
    assert_eq!(
        open_second(&t, server.clone(), false, Some(&tgs), None),
        Err(proto(BAD_INTEGRITY, Status::SecondTktDecrypt))
    );
    assert_eq!(
        open_second(&t, server.clone(), true, None, None),
        Err(proto(GENERIC, Status::GetLocalTgt))
    );
    let st = open_second(&t, server.clone(), true, Some(&tgs), None).unwrap();
    assert_eq!(st, SecondTicket { part: ticket(&[]), server: server.clone(), pac: None });
    let st = open_second(&t, server.clone(), true, Some(&tgs), Some(b"good")).unwrap();
    assert_eq!(st.pac, Some(Ok(PacFacts { client_info: None, delegation: None })));
    assert_eq!(
        open_second(&t, server, true, Some(&tgs), Some(b"bad")),
        Err(proto(GENERIC, Status::SecondTktPac))
    );
    let own = sealed_ticket(&["krbtgt", REALM], 18);
    assert!(open_second(&own, tgs.clone(), true, None, Some(b"good")).is_ok());
    assert!(open_second(&own, tgs, true, None, Some(b"bad")).is_err());
}

#[test]
fn padata_inside_a_reply_keeps_its_order() {
    let pa = |t: i32| PaData { padata_type: t, padata_value: vec![t as u8] };
    assert_eq!(return_enc_padata(None, None, false, vec![9]), None);
    assert_eq!(return_enc_padata(None, Some(Vec::new()), false, vec![9]), None);
    let all = return_enc_padata(Some(pa(1)), Some(vec![pa(2), pa(3)]), true, vec![9]).unwrap();
    let option = PaData { padata_type: PA_PAC_OPTIONS, padata_value: vec![9] };
    assert_eq!(all, vec![pa(1), pa(2), pa(3), option]);
}

#[test]
fn refused_request_names_the_client_of_an_opened_ticket() {
    let user = || Some(name(&["user"]));
    assert_eq!(tgs_header_client(MSG_TGS_REQ, false, false, user()), user());
    assert_eq!(tgs_header_client(MSG_TGS_REQ, true, false, user()), None);
    assert_eq!(tgs_header_client(MSG_TGS_REQ, false, true, user()), None);
    assert_eq!(tgs_header_client(10, false, false, user()), None);
    assert_eq!(tgs_header_client(MSG_TGS_REQ, false, false, None), None);
}
