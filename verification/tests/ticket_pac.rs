use krb5_kdc::ad::logon::passed_logon;
use krb5_kdc::ad::{LogonSids, Sid};
use krb5_kdc::error::{proto, proto_detail, Error, Status, BAD_INTEGRITY, POLICY};
use krb5_kdc::flags::Flags;
use krb5_kdc::issue::answer_tgs::TgsIssue;
use krb5_kdc::issue::assemble_tgs::tgs_terms;
use krb5_kdc::issue::mint::PacSigner;
use krb5_kdc::issue::reply::{tgs_issue_ticket, PacKey};
use krb5_kdc::issue::tgs_policy::SecondTicket;
use krb5_kdc::issue::tgs_req::{
    check_tgs_req, indicator_ticket, TgsChecked, TgsFacts, TgsOutside, TgsRequest, TgsSubject,
    TicketKey, TicketKeys, TicketTimes,
};
use krb5_kdc::issue::ticket_pac::{
    sign_ticket_pac, subject_pac, tgs_pac_start, AsSigner, LogonIdentity, PacSubject, TgsSigner,
};
use krb5_kdc::kdb::MemoryStore;
use krb5_kdc::msg::{EncTicketPart, EncryptionKey, KdcReqBody, TransitedEncoding};
use krb5_kdc::name::{PrincipalName, NT_PRINCIPAL};
use krb5_kdc::pac::delegation::{
    extend_delegation, pac_facts, replace_delegation, sole_data, unique_buffer,
};
use krb5_kdc::pac::reply::SignInput;
use krb5_kdc::pac::{
    signature_buffer, ClientInfo, DelegationInfo, FreshPac, PacBuffer, PacFacts, SignatureForm,
    PAC_CLIENT_INFO, PAC_DELEGATION_INFO, PAC_LOGON_INFO, PAC_SERVER_CHECKSUM,
};
use krb5_kdc::store::{KeyEntry, Policy, Principal, KDB_NO_AUTH_DATA_REQUIRED};

const REALM: &str = "KERBER.TEST";

fn name(parts: &[&str]) -> PrincipalName {
    PrincipalName {
        name_type: NT_PRINCIPAL,
        name_string: parts.iter().map(|s| s.to_string()).collect(),
    }
}

fn princ(parts: &[&str]) -> Principal {
    let mut p = Principal::nobody();
    p.name = name(parts);
    p.realm = REALM.to_string();
    p.keys =
        vec![KeyEntry { etype: 18, kvno: 1, key: vec![7; 32], salt_type: None, kdb_salt: None }];
    p
}

fn policy() -> Policy {
    Policy {
        max_life: 36_000,
        max_renewable_life: 604_800,
        realm_max_renewable_life: 604_800,
        skew: 300,
        known_enctypes: vec![17, 18, 19, 20, 23],
        permitted_enctypes: vec![20, 18, 23],
        allow_des3: false,
        allow_rc4: false,
        disable_pac: false,
        restrict_anon: false,
        reject_bad_transit: true,
        host_based_services: String::new(),
        no_host_referral: String::new(),
        pkinit: false,
        spake_preauth_groups: Vec::new(),
        pkinit_indicators: Vec::new(),
        spake_preauth_indicators: Vec::new(),
        encrypted_challenge_indicator: None,
    }
}

fn store() -> MemoryStore {
    let mut user = princ(&["user"]);
    user.rid = 1_234;
    MemoryStore::from_principals(
        REALM.to_string(),
        policy(),
        vec![user, princ(&["krbtgt", REALM]), princ(&["host", "a.kerber.test"])],
    )
}

fn part() -> EncTicketPart {
    EncTicketPart {
        flags: Flags::none(),
        key: EncryptionKey { keytype: 18, keyvalue: vec![1; 32] },
        crealm: REALM.to_string(),
        cname: name(&["user"]),
        transited: TransitedEncoding { tr_type: 1, contents: Vec::new() },
        authtime: 1_000,
        starttime: None,
        endtime: 30_000,
        renew_till: None,
        caddr: None,
        authorization_data: None,
    }
}

fn body(options: Flags, sname: &PrincipalName) -> KdcReqBody {
    KdcReqBody {
        kdc_options: options,
        cname: None,
        realm: REALM.to_string(),
        sname: Some(sname.clone()),
        from: None,
        till: 5_000,
        rtime: None,
        nonce: 41,
        etype: vec![18],
        addresses: None,
    }
}

fn subject() -> TgsSubject {
    TgsSubject {
        s4u2self: false,
        s4u2proxy: false,
        is_referral: false,
        is_crossrealm: false,
        restart_count: false,
        cname: name(&["user"]),
        crealm: REALM.to_string(),
        s4u_subject: None,
        authtime: 1_000,
        stkt: None,
        s4u_local: None,
        s4u_x509: None,
        logon: None,
    }
}

fn delegated() -> TgsSubject {
    let mut web = princ(&["HTTP", "web"]);
    web.realm = "WEB.TEST".to_string();
    let facts = PacFacts {
        client_info: Some(ClientInfo { authtime: 1_000, name: "user".to_string() }),
        delegation: None,
    };
    TgsSubject {
        s4u2proxy: true,
        stkt: Some(SecondTicket { part: part(), server: web, pac: Some(Ok(facts)) }),
        ..subject()
    }
}

fn buffer(kind: u32, data: &[u8]) -> PacBuffer {
    PacBuffer { kind, data: data.to_vec() }
}

fn unparse(n: &PrincipalName) -> String {
    n.components_joined()
}

fn unparse_with_realm(n: &PrincipalName, realm: &String) -> String {
    format!("{}@{}", n.components_joined(), realm)
}

/// A delegation buffer: the target and the services, each behind a line.
fn read_delegation(v: &Vec<u8>) -> Result<DelegationInfo, Error> {
    let text = String::from_utf8(v.clone()).map_err(|_| Error::NotFound)?;
    let mut parts = text.split('|').map(|s| s.to_string());
    let proxy_target = parts.next().unwrap_or_default();
    Ok(DelegationInfo { proxy_target, transited_services: parts.collect() })
}

fn write_delegation(d: &DelegationInfo) -> Vec<u8> {
    let mut s = d.proxy_target.clone();
    for t in &d.transited_services {
        s.push('|');
        s.push_str(t);
    }
    s.into_bytes()
}

#[test]
fn buffers_are_found_where_they_are_alone() {
    let bs = [buffer(1, b"a"), buffer(10, b"b"), buffer(1, b"c"), buffer(7, b"d")];
    assert_eq!(unique_buffer(&bs, 10), Some(1));
    assert_eq!(unique_buffer(&bs, 1), None, "repeated");
    assert_eq!(unique_buffer(&bs, 6), None, "missing");
    assert_eq!(unique_buffer(&bs[..1], 1), Some(0));
    assert_eq!(sole_data(&bs, 10), Some(b"b".to_vec()));
    assert_eq!(sole_data(&bs, 1), None);
}

#[test]
fn facts_come_from_buffers_that_are_alone() {
    let client = |v: &Vec<u8>| match v.as_slice() {
        [] => None,
        v => Some(ClientInfo { authtime: u32::from(v[0]), name: "user".to_string() }),
    };
    let delegation = |v: &Vec<u8>| read_delegation(v).ok();
    let facts = |bs: &[PacBuffer]| pac_facts(bs, &client, &delegation);
    let mut bs = vec![buffer(PAC_CLIENT_INFO, &[7]), buffer(PAC_DELEGATION_INFO, b"x|a")];
    let f = facts(&bs);
    assert_eq!(f.client_info, Some(ClientInfo { authtime: 7, name: "user".to_string() }));
    assert_eq!(f.delegation.unwrap().transited_services, ["a"]);
    bs.push(buffer(PAC_CLIENT_INFO, &[7]));
    assert_eq!(facts(&bs).client_info, None, "repeated");
    assert_eq!(facts(&bs[1..2]).client_info, None, "missing");
    assert_eq!(facts(&[buffer(PAC_CLIENT_INFO, &[])]).client_info, None, "malformed");
}

#[test]
fn indicators_come_from_the_second_ticket() {
    let tkt = EncTicketPart { authtime: 5, ..part() };
    assert_eq!(indicator_ticket(&None, &tkt).authtime, 5);
    assert_eq!(indicator_ticket(&delegated().stkt, &tkt).authtime, 1_000);
}

#[test]
fn one_delegation_buffer_is_left() {
    let bs = [
        buffer(PAC_DELEGATION_INFO, b"old"),
        buffer(PAC_LOGON_INFO, b"logon"),
        buffer(PAC_DELEGATION_INFO, b"older"),
        buffer(PAC_CLIENT_INFO, b"client"),
    ];
    assert_eq!(
        replace_delegation(&bs, b"new".to_vec()),
        [
            buffer(PAC_LOGON_INFO, b"logon"),
            buffer(PAC_CLIENT_INFO, b"client"),
            buffer(PAC_DELEGATION_INFO, b"new"),
        ]
    );
    let hop = |bs: &[PacBuffer]| {
        extend_delegation(
            bs,
            "to".to_string(),
            "by".to_string(),
            &read_delegation,
            &write_delegation,
        )
    };
    assert_eq!(hop(&bs).unwrap()[2].data, b"to|by", "a repeated buffer says nothing");
    assert_eq!(hop(&bs[1..3]).unwrap()[1].data, b"to|by", "the services of the one before: none");
    let one = [buffer(PAC_DELEGATION_INFO, b"x|first|second")];
    assert_eq!(hop(&one), Ok(vec![buffer(PAC_DELEGATION_INFO, b"to|first|second|by")]));
    assert_eq!(hop(&[buffer(PAC_DELEGATION_INFO, &[0xff])]), Err(Error::NotFound));
}

#[test]
fn the_subject_decides_whose_pac_goes_on() {
    let (header, evidence) = (vec![buffer(1, b"header")], vec![buffer(1, b"evidence")]);
    let pick = |s: &TgsSubject| subject_pac(s, Some(&header), Some(&evidence)).cloned();
    assert_eq!(pick(&subject()), Some(header.clone()));
    assert_eq!(pick(&delegated()), Some(evidence.clone()));
    assert_eq!(pick(&TgsSubject { s4u2self: true, ..subject() }), None);
    assert_eq!(subject_pac(&delegated(), Some(&header), None), None);
}

#[test]
fn delegations_name_the_requested_server_and_the_one_that_delegates() {
    let evidence = vec![buffer(PAC_SERVER_CHECKSUM, b"s"), buffer(PAC_DELEGATION_INFO, b"x|a")];
    let header = vec![buffer(PAC_LOGON_INFO, b"h")];
    let requested = name(&["cifs", "files"]);
    let start = |s: &TgsSubject| {
        tgs_pac_start(
            s,
            &requested,
            Some(&header),
            Some(&evidence),
            &unparse,
            &unparse_with_realm,
            &read_delegation,
            &write_delegation,
        )
    };
    let extended =
        vec![evidence[0].clone(), buffer(PAC_DELEGATION_INFO, b"cifs/files|a|HTTP/web@WEB.TEST")];
    assert_eq!(start(&delegated()), Ok(Some(extended.clone())));
    let referred = TgsSubject { is_referral: true, ..delegated() };
    assert_eq!(start(&referred), Ok(Some(extended)), "not the service referred to");
    let foreign = TgsSubject { is_crossrealm: true, ..delegated() };
    assert_eq!(start(&foreign), Ok(Some(evidence.clone())), "as it came");
    assert_eq!(start(&subject()), Ok(Some(header.clone())));
    assert_eq!(start(&TgsSubject { s4u2self: true, ..subject() }), Ok(None));
}

fn sids(domain: bool) -> LogonSids {
    let sid = |n: u8, local: bool| Sid { octets: vec![n], local };
    LogonSids {
        domain: sid(1, domain),
        extra: vec![sid(2, true), sid(3, false)],
        resource_domain: Some(sid(4, true)),
        resource_groups: vec![5],
    }
}

/// The logon information with its identifiers as they are written here.
fn write_logon(v: &Vec<u8>, l: &LogonSids) -> Vec<u8> {
    let mut out = v.clone();
    out.push(l.domain.octets[0]);
    for s in &l.extra {
        out.push(s.octets[0]);
    }
    out.push(l.resource_groups.len() as u8);
    out
}

#[test]
fn foreign_logon_information_is_filtered() {
    let read = |v: &Vec<u8>| match v.as_slice() {
        [0] => Err("too short".to_string()),
        [1] => Ok(sids(true)),
        _ => Ok(sids(false)),
    };
    let pass = |from: &str, v: &[u8]| passed_logon(from, REALM, &v.to_vec(), &read, &write_logon);
    assert_eq!(pass("B.TEST", &[9]), Ok(vec![9, 1, 3, 0]));
    assert_eq!(pass("B.TEST", &[1]), Err(proto(POLICY, Status::InvalidLineage)));
    assert_eq!(
        pass("B.TEST", &[0]),
        Err(proto_detail(
            POLICY,
            Status::InvalidLineage,
            "cross-realm PAC: too short".to_string()
        ))
    );
    for v in [0u8, 1, 9] {
        assert_eq!(pass(REALM, &[v]), Ok(vec![v]), "a local ticket's is not read");
    }
}

/// The logon information that a checked request passes on.
fn checked_logon(
    header_realm: &str,
    server: &Principal,
    logon: &[u8],
) -> Result<Option<Vec<u8>>, Error> {
    let b = body(Flags::none(), &server.name);
    let tkt = EncTicketPart { crealm: header_realm.to_string(), ..part() };
    let tgt = PrincipalName::krbtgt(REALM);
    let req = TgsRequest {
        body: &b,
        header_sname: &tgt,
        header_realm,
        enc_tkt: &tkt,
        sname: &server.name,
        req_realm: REALM,
        server,
    };
    let facts = PacFacts {
        client_info: Some(ClientInfo { authtime: 1_000, name: "user".to_string() }),
        delegation: None,
    };
    let out = TgsOutside {
        s4u: Ok(None),
        stkt: Ok(None),
        header_pac: Some(Ok(facts)),
        logon: Some(logon.to_vec()),
        header_client: "user".to_string(),
        evidence_client: String::new(),
        target: None,
    };
    let facts = TgsFacts {
        pac_options: None,
        session_enctypes: None,
        u2u_key: Ok(()),
    };
    let local = princ(&["krbtgt", REALM]);
    check_tgs_req(
        &store(),
        &req,
        out,
        facts,
        Some(&local),
        2_000,
        &|v: &Vec<u8>| if v.is_empty() { Ok(sids(true)) } else { Ok(sids(false)) },
        &write_logon,
        &|t: &TransitedEncoding, _: &str, _: &str, _: &str| Ok(t.clone()),
        &|_: &TransitedEncoding, _: &str, _: &str| true,
        &|_: &EncTicketPart, _: &Principal, _: &EncryptionKey| Ok(Vec::new()),
    )
    .map(|(s, _)| s.logon)
}

#[test]
fn checked_requests_pass_filtered_logon_information_on() {
    let server = princ(&["host", "a.kerber.test"]);
    assert_eq!(checked_logon(REALM, &server, b"x"), Ok(Some(b"x".to_vec())));
    assert_eq!(checked_logon("B.TEST", &server, b"x"), Ok(Some(vec![b'x', 1, 3, 0])));
    assert_eq!(
        checked_logon("B.TEST", &server, b""),
        Err(proto(POLICY, Status::InvalidLineage))
    );
}

/// A signature has the number of its key's type.
fn form(keytype: i32) -> SignatureForm {
    SignatureForm { cksumtype: keytype, len: 1 }
}

/// A key of a type, with a letter for its octets.
fn key(keytype: i32, letter: u8) -> EncryptionKey {
    EncryptionKey { keytype, keyvalue: vec![letter; 32] }
}

/// A checksum tells the key that it is under.
fn checksum(k: &EncryptionKey, usage: u32, _: &SignInput) -> Result<Vec<u8>, Error> {
    assert_eq!(usage, 17);
    Ok(vec![k.keyvalue[0]])
}

fn encode(p: &EncTicketPart) -> Result<Vec<u8>, Error> {
    Ok(vec![p.cname.name_string.len() as u8])
}

/// A new set of buffers that tells whom it is for.
fn fresh(p: &PacSubject, authtime: u32, name: &str) -> FreshPac {
    FreshPac {
        logon: format!("{} {} {:?}", p.identity.sam, p.identity.rid, p.domain).into_bytes(),
        client_info: format!("{authtime} {name}").into_bytes(),
        upn_dns: p.identity.realm.clone().into_bytes(),
        attributes: Vec::new(),
        requester_sid: Vec::new(),
    }
}

fn identify(v: &Vec<u8>) -> Result<LogonIdentity, String> {
    if v.is_empty() {
        return Err("empty".to_string());
    }
    Ok(LogonIdentity { sam: "foreigner".to_string(), rid: 77, domain: v.clone() })
}

/// Buffers in a row: the kind, then the contents.
fn write_pac(v: &Vec<PacBuffer>) -> Vec<u8> {
    let mut out = Vec::new();
    for b in v {
        out.push(b.kind as u8);
        out.extend_from_slice(&b.data);
    }
    out
}

#[test]
fn new_pacs_speak_of_their_client() {
    let (store, p) = (store(), part());
    let sign = |start: Option<&Vec<PacBuffer>>, logon: Option<&Vec<u8>>, client: Option<&str>| {
        sign_ticket_pac(
            &store,
            &p,
            false,
            start,
            logon,
            client,
            &key(16, b'S'),
            &key(20, b'K'),
            &encode,
            &identify,
            &fresh,
            &form,
            &checksum,
        )
    };
    let own = sign(None, None, None).unwrap();
    assert_eq!(own[0], buffer(PAC_LOGON_INFO, b"user 1234 None"));
    assert_eq!(own[1], buffer(PAC_CLIENT_INFO, b"1000 user"));
    assert_eq!(own[5].data, signature_buffer(16, b"S"));
    assert_eq!(own[6].data, signature_buffer(20, b"K"));
    let other = sign(None, None, Some("user@B.TEST")).unwrap();
    assert_eq!(other[1], buffer(PAC_CLIENT_INFO, b"1000 user@B.TEST"));
    let logon = b"logon".to_vec();
    let given = sign(None, Some(&logon), None).unwrap();
    assert_eq!(given[0], buffer(PAC_LOGON_INFO, b"logon"));
    let start = vec![
        buffer(PAC_CLIENT_INFO, b"kept"),
        buffer(PAC_LOGON_INFO, b"old"),
        buffer(PAC_SERVER_CHECKSUM, b"old"),
    ];
    let copied = sign(Some(&start), Some(&logon), None).unwrap();
    assert_eq!(copied.len(), 4);
    assert_eq!(copied[0], start[0]);
    assert_eq!(copied[1], buffer(PAC_LOGON_INFO, b"logon"));
    assert_eq!(
        sign(Some(&start), Some(&Vec::new()), None),
        Err(proto_detail(BAD_INTEGRITY, Status::HandleAuthdata, "PAC logon: empty".to_string()))
    );
}

/// A laid out request whose answer is this server.
fn issue<'a>(
    b: &'a KdcReqBody,
    tkt: &'a EncTicketPart,
    requested: &'a PrincipalName,
    server: &'a Principal,
    krbtgt: &'a Principal,
    subject: TgsSubject,
    with_pac: bool,
) -> TgsIssue<'a> {
    let req = TgsRequest {
        body: b,
        header_sname: requested,
        header_realm: REALM,
        enc_tkt: tkt,
        sname: requested,
        req_realm: REALM,
        server,
    };
    let plan = tgs_issue_ticket(
        &policy(),
        REALM,
        &req,
        &subject,
        Flags::none(),
        with_pac,
        true,
        &[],
        None,
    );
    TgsIssue {
        requested,
        server,
        subject,
        checked: TgsChecked {
            indicators: Vec::new(),
            keys: TicketKeys {
                session_etype: 18,
                ticket_key: TicketKey::ServerKey(0),
                ticket_kvno: 1,
                ticket_etype: 18,
            },
            transited: TransitedEncoding { tr_type: 1, contents: Vec::new() },
            set_transited_flag: true,
        },
        service_key: key(16, b'S'),
        kdc_key: key(20, b'K'),
        krbtgt,
        krbtgt_key: 0,
        session: EncryptionKey { keytype: 18, keyvalue: vec![9; 32] },
        times: TicketTimes {
            flags: Flags::none(),
            authtime: 1_000,
            starttime: 2_000,
            endtime: 5_000,
            renew_till: None,
        },
        plan,
    }
}

/// The PAC of a laid out ticket, under its keys.
fn signed(i: &TgsIssue, start: Option<&Vec<PacBuffer>>, service: bool) -> Vec<u8> {
    let store = store();
    let signer = TgsSigner {
        store: &store,
        issue: i,
        start,
        encode: &encode,
        identify: &identify,
        fresh: &fresh,
        form: &form,
        checksum: &checksum,
        write: &write_pac,
    };
    signer.sign(&i.service_key, &i.kdc_key, &part(), service).unwrap()
}

fn row(kind: u32, data: &[u8]) -> Vec<u8> {
    write_pac(&vec![buffer(kind, data)])
}

fn ends_with(v: &[u8], rows: &[Vec<u8>]) -> bool {
    v.ends_with(&rows.concat())
}

#[test]
fn plans_decide_how_pacs_are_signed() {
    let (host, tkt) = (name(&["host", "a.kerber.test"]), part());
    let b = body(Flags::none(), &host);
    let start = vec![buffer(PAC_CLIENT_INFO, b"kept"), buffer(PAC_LOGON_INFO, b"old")];
    let (local, tgs) = (princ(&["host", "a.kerber.test"]), princ(&["krbtgt", REALM]));
    let with_logon = TgsSubject { logon: Some(b"new".to_vec()), ..subject() };
    let i = issue(&b, &tkt, &host, &local, &tgs, with_logon, true);
    assert_eq!((i.plan.pac_key, i.plan.copies_pac), (PacKey::LocalTgt, true));
    let v = signed(&i, Some(&start), false);
    let head = [row(PAC_CLIENT_INFO, b"kept"), row(PAC_LOGON_INFO, b"new")].concat();
    assert!(v.starts_with(&head), "the buffers of the subject with the logon information");
    assert!(ends_with(
        &v,
        &[row(6, &signature_buffer(16, b"S")), row(7, &signature_buffer(20, b"K"))]
    ));
    let trusted = princ(&["krbtgt", "B.TEST"]);
    let i = issue(&b, &tkt, &host, &trusted, &tgs, subject(), true);
    assert_eq!(i.plan.pac_key, PacKey::TicketKey);
    let on_behalf = TgsSubject {
        s4u2self: true,
        is_referral: true,
        s4u_subject: Some((name(&["alice"]), "B.TEST".to_string())),
        ..subject()
    };
    let i = issue(&b, &tkt, &host, &local, &tgs, on_behalf, true);
    assert!(!i.plan.copies_pac);
    let v = signed(&i, Some(&start), false);
    let head = [
        row(PAC_LOGON_INFO, b"user 1234 None"),
        row(PAC_CLIENT_INFO, b"1000 alice@B.TEST"),
    ]
    .concat();
    assert!(v.starts_with(&head), "a new set for the user acted for");
}

#[test]
fn as_pacs_are_made_anew() {
    let store = store();
    let sign = |good: bool| {
        let signer = AsSigner {
            store: &store,
            encode: &|p: &EncTicketPart| if good { encode(p) } else { Err(Error::Rng) },
            fresh: &fresh,
            form: &form,
            checksum: &checksum,
            write: &write_pac,
        };
        signer.sign(&key(16, b'S'), &key(20, b'K'), &part(), false)
    };
    let v = sign(true).unwrap();
    assert!(v.starts_with(&row(PAC_LOGON_INFO, b"user 1234 None")));
    assert!(ends_with(
        &v,
        &[row(6, &signature_buffer(16, b"S")), row(7, &signature_buffer(20, b"K"))]
    ));
    assert_eq!(sign(false), Err(Error::Rng));
}

#[test]
fn services_that_act_for_a_user_get_authorization_data() {
    let host = name(&["host", "a.kerber.test"]);
    let (b, tkt) = (body(Flags::none(), &host), part());
    let tgs = princ(&["krbtgt", REALM]);
    let mut bare = princ(&["host", "a.kerber.test"]);
    bare.attributes = KDB_NO_AUTH_DATA_REQUIRED;
    let plain = issue(&b, &tkt, &host, &bare, &tgs, subject(), true);
    assert!(tgs_terms(&plain, REALM, Vec::new()).no_auth_data);
    let on_behalf = TgsSubject { s4u2self: true, ..subject() };
    let acting = issue(&b, &tkt, &host, &bare, &tgs, on_behalf, true);
    let t = tgs_terms(&acting, REALM, Vec::new());
    assert!(!t.no_auth_data && t.include_pac);
}
