use krb5_kdc::error::{
    proto, Error, Status, BADOPTION, C_PRINCIPAL_UNKNOWN, ETYPE_NOSUPP, GENERIC,
    MORE_PREAUTH_DATA_REQUIRED, PREAUTH_FAILED, PREAUTH_REQUIRED, REPEAT, SKEW,
    S_PRINCIPAL_UNKNOWN,
};
use krb5_kdc::flags::{Flags, ANONYMOUS, CANONICALIZE, FORWARDABLE, INITIAL, PRE_AUTHENT};
use krb5_kdc::issue::as_req::{
    as_rep_key_info, attach_preauth_hint, authind_add, complete_challenge, finish_preauth,
    finish_process_as_req, lookup_client, preauth_hint, AsPreauth, IssueOutcome, PreauthAction,
    PreauthInput,
};
use krb5_kdc::issue::assemble::AsSession;
use krb5_kdc::issue::client_time::{
    kdc_encrypted_challenge, verify_enc_timestamp, verify_encrypted_challenge, ClientTime,
};
use krb5_kdc::issue::reply::{FastFacts, PacKey};
use krb5_kdc::kdb::MemoryStore;
use krb5_kdc::msg::{
    EncryptedData, EncryptionKey, KdcReqBody, PaData, PA_AS_FRESHNESS, PA_ENCRYPTED_CHALLENGE,
    PA_ETYPE_INFO, PA_ETYPE_INFO2, PA_FX_COOKIE, PA_FX_FAST, PA_PW_SALT,
};
use krb5_kdc::name::{PrincipalName, NT_ENTERPRISE, NT_PRINCIPAL};
use krb5_kdc::store::{KeyEntry, Policy, Principal, KDB_REQUIRES_HW_AUTH};

const REALM: &str = "KERBER.TEST";

fn name(parts: &[&str]) -> PrincipalName {
    PrincipalName {
        name_type: NT_PRINCIPAL,
        name_string: parts.iter().map(|s| s.to_string()).collect(),
    }
}

fn policy() -> Policy {
    Policy {
        max_life: 36_000,
        max_renewable_life: 604_800,
        realm_max_renewable_life: 604_800,
        skew: 300,
        known_enctypes: vec![17, 18, 19, 20, 23],
        permitted_enctypes: vec![20, 18, 23],
        allow_des3: false,
        allow_rc4: false,
        disable_pac: false,
        restrict_anon: false,
        reject_bad_transit: true,
        host_based_services: String::new(),
        no_host_referral: String::new(),
        pkinit: false,
        spake_preauth_groups: Vec::new(),
        pkinit_indicators: vec!["pkinit".to_string()],
        spake_preauth_indicators: vec!["spake".to_string()],
        encrypted_challenge_indicator: Some("challenge".to_string()),
    }
}

fn princ(parts: &[&str]) -> Principal {
    let mut p = Principal::nobody();
    p.name = name(parts);
    p.realm = REALM.to_string();
    p.keys =
        vec![KeyEntry { etype: 18, kvno: 1, key: vec![7; 32], salt_type: None, kdb_salt: None }];
    p
}

fn body(bits: &[u32]) -> KdcReqBody {
    let mut o = Flags::none();
    for b in bits {
        o = o.with_bit(*b, true);
    }
    KdcReqBody {
        kdc_options: o,
        cname: Some(name(&["user"])),
        realm: REALM.to_string(),
        sname: None,
        from: None,
        till: 5_000,
        rtime: None,
        nonce: 41,
        etype: vec![18],
        addresses: None,
    }
}

fn pa(ty: i32, value: &[u8]) -> PaData {
    PaData { padata_type: ty, padata_value: value.to_vec() }
}

fn store() -> MemoryStore {
    MemoryStore::from_principals(
        REALM.to_string(),
        policy(),
        vec![princ(&["user"]), princ(&["krbtgt", REALM])],
    )
}

fn own_key() -> EncryptionKey {
    EncryptionKey { keytype: 18, keyvalue: vec![7; 32] }
}

fn module_key() -> EncryptionKey {
    EncryptionKey { keytype: 20, keyvalue: vec![0x44; 32] }
}

#[test]
fn clients_are_looked_up() {
    let s = store();
    let look = |b: &KdcReqBody| {
        lookup_client(&s, b, None, &[], None, Vec::new(), "", 1_000)
            .map(|l| (l.client.id(), l.server.id(), l.cname.components_joined(), l.session_etype))
    };
    assert_eq!(
        look(&body(&[])),
        Ok((
            "user@KERBER.TEST".to_string(),
            "krbtgt/KERBER.TEST@KERBER.TEST".to_string(),
            "user".to_string(),
            18
        ))
    );
    let mut b = body(&[]);
    b.realm = "OTHER.TEST".to_string();
    assert_eq!(look(&b), Err(proto(C_PRINCIPAL_UNKNOWN, Status::ClientNotFound)));
    let mut b = body(&[]);
    b.cname = None;
    assert_eq!(look(&b), Err(proto(C_PRINCIPAL_UNKNOWN, Status::NullClient)));
    b.cname = Some(name(&["nobody"]));
    assert_eq!(look(&b), Err(proto(C_PRINCIPAL_UNKNOWN, Status::ClientNotFound)));
    let mut b = body(&[]);
    b.sname = Some(name(&["host", "x"]));
    assert_eq!(look(&b), Err(proto(S_PRINCIPAL_UNKNOWN, Status::ServerNotFound)));
    let mut b = body(&[]);
    b.etype = vec![23];
    assert_eq!(look(&b), Err(proto(ETYPE_NOSUPP, Status::BadEncryptionType)));
}

#[test]
fn enterprise_names_become_canonical() {
    let s = store();
    let mut b = body(&[CANONICALIZE]);
    b.cname = Some(PrincipalName {
        name_type: NT_ENTERPRISE,
        name_string: vec!["user@KERBER.TEST".to_string()],
    });
    let l = lookup_client(&s, &b, None, &[], None, Vec::new(), "", 1_000).unwrap();
    assert_eq!(l.cname, name(&["user"]));
    assert_eq!(l.req_cname.name_type, NT_ENTERPRISE);
}

fn input<'a>(padata: &'a [PaData], fast: bool) -> PreauthInput<'a> {
    PreauthInput {
        padata,
        fast,
        module: Ok(None),
        challenge: Ok(()),
        challenge_reply: Ok(pa(PA_ENCRYPTED_CHALLENGE, &[1])),
        hint: vec![0x30],
        info2: Some(vec![2]),
    }
}

/// Padata in a plain encoding: a type and a length, then the value.
fn read(v: &Vec<u8>) -> Vec<PaData> {
    let mut out = Vec::new();
    let mut rest = v.as_slice();
    while rest.len() >= 2 && rest.len() >= 2 + usize::from(rest[1]) {
        let (one, more) = rest.split_at(2 + usize::from(rest[1]));
        out.push(pa(i32::from(one[0]), &one[2..]));
        rest = more;
    }
    out
}

fn write(v: &Vec<PaData>) -> Option<Vec<u8>> {
    let mut out = Vec::new();
    for p in v {
        out.push(u8::try_from(p.padata_type).ok()?);
        out.push(u8::try_from(p.padata_value.len()).ok()?);
        out.extend_from_slice(&p.padata_value);
    }
    Some(out)
}

fn run(client: &Principal, bits: &[u32], i: PreauthInput) -> (Option<bool>, Result<AsPreauth, Error>) {
    let cname = name(&["user"]);
    let o = body(bits).kdc_options;
    finish_preauth(&policy(), client, &client.keys[0], cname.clone(), &cname, o, i, &read, &write)
}

#[test]
fn preauth_is_asked_for_and_judged() {
    let mut user = princ(&["user"]);
    let (rec, ok) = run(&user, &[], input(&[], false));
    assert_eq!(rec, None);
    let ok = ok.unwrap();
    assert!(!ok.authenticated);
    assert_eq!(ok.as_rep_key, own_key());
    user.requires_preauth = true;
    assert_eq!(
        run(&user, &[], input(&[], false)).1.err(),
        Some(Error::PreauthRequired { e_data: vec![0x30] })
    );
    let mut i = input(&[], false);
    i.module = Ok(Some(PreauthAction::EncTsOk));
    let p = run(&user, &[], i).1.unwrap();
    assert!(p.authenticated && !p.reply_key_replaced);
    assert_eq!(p.as_rep_key, own_key());
    assert!(p.indicators.is_empty());
    let mut i = input(&[], false);
    i.module = Ok(Some(PreauthAction::SpakeDone(module_key())));
    let p = run(&user, &[], i).1.unwrap();
    assert!(p.authenticated && p.reply_key_replaced);
    assert_eq!(p.as_rep_key, module_key());
    assert_eq!(p.indicators, ["spake"]);
    let mut i = input(&[], false);
    i.module = Ok(Some(PreauthAction::Pkinit {
        key: module_key(),
        pa: pa(17, &[4]),
        signed: true,
    }));
    let p = run(&user, &[], i).1.unwrap();
    assert_eq!(p.as_rep_key, module_key());
    assert_eq!(p.indicators, ["pkinit"]);
    assert_eq!(p.extra_padata, [pa(17, &[4])]);
    let mut i = input(&[], false);
    let challenged = |sent: Vec<u8>| {
        Some(Error::Protocol {
            code: MORE_PREAUTH_DATA_REQUIRED,
            text: Some(Status::PreauthFailed),
            e_data: Some(sent),
            detail: None,
        })
    };
    let cookie = PA_FX_COOKIE as u8;
    i.module = Ok(Some(PreauthAction::Challenge(vec![cookie, 1, 9, 151, 1, 8])));
    assert_eq!(
        run(&user, &[], i).1.err(),
        challenged(vec![151, 1, 8, PA_ETYPE_INFO2 as u8, 1, 2, cookie, 1, 9]),
        "the key is described, and the cookie stands last"
    );
    let mut i = input(&[], false);
    i.module = Ok(Some(PreauthAction::Challenge(vec![151, 1, 8])));
    let sent = [pa(PA_FX_COOKIE, &[1])];
    i.padata = &sent;
    assert_eq!(
        run(&user, &[], i).1.err(),
        challenged(vec![151, 1, 8]),
        "a client that sent its cookie knows its key"
    );
    let mut i = input(&[], false);
    i.module = Err(proto(PREAUTH_FAILED, Status::PreauthFailed));
    assert_eq!(
        run(&user, &[], i).1.err(),
        Some(Error::Protocol {
            code: PREAUTH_FAILED,
            text: Some(Status::PreauthFailed),
            e_data: Some(vec![0x30]),
            detail: None
        })
    );
}

#[test]
fn encrypted_challenges_need_fast() {
    let mut user = princ(&["user"]);
    user.requires_preauth = true;
    let pas = [pa(PA_ENCRYPTED_CHALLENGE, &[9])];
    assert!(matches!(
        run(&user, &[], input(&pas, false)).1.err(),
        Some(Error::Protocol { code: PREAUTH_FAILED, e_data: Some(_), .. })
    ));
    let (rec, p) = run(&user, &[], input(&pas, true));
    let p = p.unwrap();
    assert_eq!(rec, Some(true));
    assert!(p.authenticated);
    assert_eq!(p.indicators, ["challenge"]);
    assert_eq!(p.extra_padata, [pa(PA_ENCRYPTED_CHALLENGE, &[1])]);
    let mut i = input(&pas, true);
    i.challenge = Err(proto(SKEW, Status::PreauthFailed));
    let (rec, e) = run(&user, &[], i);
    assert_eq!(rec, Some(false));
    assert_eq!(e.err(), Some(proto(SKEW, Status::PreauthFailed)));
}

#[test]
fn hardware_and_anonymity() {
    let mut user = princ(&["user"]);
    user.attributes = KDB_REQUIRES_HW_AUTH;
    assert!(matches!(
        run(&user, &[], input(&[], false)).1.err(),
        Some(Error::Protocol { code: PREAUTH_REQUIRED, text: Some(Status::NeededHwPreauth), .. })
    ));
    assert_eq!(
        run(&princ(&["user"]), &[ANONYMOUS], input(&[], false)).1.err(),
        Some(proto(BADOPTION, Status::ValidateAnonymousPrincipal))
    );
    let anon = PrincipalName::anonymous();
    let mut i = input(&[], false);
    i.module = Ok(Some(PreauthAction::Pkinit {
        key: module_key(),
        pa: pa(17, &[4]),
        signed: false,
    }));
    let client = princ(&["WELLKNOWN", "ANONYMOUS"]);
    let o = body(&[ANONYMOUS]).kdc_options;
    let key = &client.keys[0];
    let p = finish_preauth(&policy(), &client, key, anon.clone(), &anon, o, i, &read, &write)
        .1
        .unwrap();
    assert!(p.anonymous && p.cname.is_anonymous());
    assert!(p.indicators.is_empty(), "an unsigned request brings no indicator");
}

fn made(
    pac_request: Option<bool>,
    verdict: Result<(), Error>,
    authdata: Result<(), Error>,
) -> IssueOutcome {
    IssueOutcome { pac_request, verdict, authdata }
}

fn session() -> Result<AsSession, Error> {
    let key = EncryptionKey { keytype: 18, keyvalue: vec![9; 32] };
    Ok(AsSession { key, kx: None })
}

fn no_type(_: &String) -> Option<i32> {
    None
}

fn no_key(_: &EncryptionKey, _: &str, _: i32) -> Option<EncryptionKey> {
    None
}

fn passed() -> AsPreauth {
    AsPreauth {
        cname: name(&["user"]),
        extra_padata: Vec::new(),
        as_rep_key: own_key(),
        authenticated: true,
        reply_key_replaced: false,
        indicators: Vec::new(),
        anonymous: false,
    }
}

#[test]
fn as_tickets_are_laid_out() {
    let client = princ(&["user"]);
    let tgs = princ(&["krbtgt", REALM]);
    let b = body(&[FORWARDABLE]);
    let plan = finish_process_as_req(
        &policy(),
        REALM,
        &b,
        &client,
        &tgs,
        &PrincipalName::krbtgt(REALM),
        &passed(),
        &[],
        None,
        made(None, Ok(()), Ok(())),
        session(),
        Ok(Some(&tgs)),
        1_000,
        &no_type,
        &no_key,
    )
    .unwrap();
    assert_eq!((plan.times.authtime, plan.times.starttime, plan.times.endtime), (1_000, 1_000, 5_000));
    assert!(plan.times.flags.bit(PRE_AUTHENT) && plan.times.flags.bit(INITIAL));
    assert!(plan.times.flags.bit(FORWARDABLE));
    assert!(plan.include_pac && plan.describes_key);
    assert_eq!((plan.pac_key, &plan.kdc_key), (PacKey::TicketKey, &own_key()));
    assert_eq!(plan.nonce, 41);
    assert_eq!(plan.crealm, REALM);
    let armor = module_key();
    let hide =
        FastFacts { options: &[false, true], nonce: 6, padata: &[], armor_key: &armor };
    let plan = finish_process_as_req(
        &policy(),
        REALM,
        &b,
        &client,
        &tgs,
        &PrincipalName::krbtgt(REALM),
        &passed(),
        &[],
        Some(&hide),
        made(Some(false), Ok(()), Ok(())),
        session(),
        Ok(Some(&tgs)),
        1_000,
        &no_type,
        &no_key,
    )
    .unwrap();
    assert!(!plan.include_pac);
    assert!(plan.rep_cname.is_anonymous());
    assert_eq!(plan.nonce, 6);
    assert_eq!(
        finish_process_as_req(
            &policy(),
            REALM,
            &b,
            &client,
            &tgs,
            &PrincipalName::krbtgt(REALM),
            &passed(),
            &[],
            None,
            made(None, Ok(()), Ok(())),
            session(),
            Ok(None),
            1_000,
            &no_type,
            &no_key,
        )
        .err(),
        Some(proto(GENERIC, Status::GetLocalTgt))
    );
    let mut keyless = tgs.clone();
    keyless.keys.clear();
    assert_eq!(
        finish_process_as_req(
            &policy(),
            REALM,
            &b,
            &client,
            &keyless,
            &PrincipalName::krbtgt(REALM),
            &passed(),
            &[],
            None,
            made(None, Ok(()), Ok(())),
            session(),
            Ok(Some(&tgs)),
            1_000,
            &no_type,
            &no_key,
        )
        .err(),
        Some(proto(GENERIC, Status::FindingServerKey))
    );
}

#[test]
fn key_descriptions_and_hints() {
    let p = policy();
    let types = |v: &[PaData]| v.iter().map(|x| x.padata_type).collect::<Vec<i32>>();
    let new = as_rep_key_info(&p, &[18], Some(vec![1]), Some(vec![2]), vec![3]);
    assert_eq!(types(&new), [PA_ETYPE_INFO2]);
    let old = as_rep_key_info(&p, &[23], Some(vec![1]), Some(vec![2]), vec![3]);
    assert_eq!(types(&old), [PA_ETYPE_INFO, PA_ETYPE_INFO2, PA_PW_SALT]);
    let hint = preauth_hint(
        vec![pa(PA_FX_FAST, &[]), pa(2, &[])],
        vec![pa(PA_ETYPE_INFO2, &[])],
        Some(vec![1]),
        Some(vec![2]),
    );
    assert_eq!(types(&hint), [PA_FX_FAST, PA_ETYPE_INFO2, 2, PA_AS_FRESHNESS, PA_FX_COOKIE]);
    let c = complete_challenge(vec![pa(151, &[])], &[], Some(vec![2]));
    assert_eq!(types(&c), [151, PA_ETYPE_INFO2]);
    let c = complete_challenge(vec![pa(151, &[])], &[pa(PA_FX_COOKIE, &[])], Some(vec![2]));
    assert_eq!(types(&c), [151]);
    assert_eq!(
        attach_preauth_hint(proto(GENERIC, Status::PreauthFailed), vec![1]),
        proto(GENERIC, Status::PreauthFailed)
    );
    let mut v = vec!["a".to_string()];
    authind_add(&mut v, "a");
    authind_add(&mut v, "b");
    assert_eq!(v, ["a", "b"]);
}

#[test]
fn kdc_keys_are_of_the_named_type() {
    let client = princ(&["user"]);
    let mut tgs = princ(&["krbtgt", REALM]);
    tgs.keys[0].key = vec![8; 32];
    let mut host = princ(&["host", "a"]);
    let b = body(&[]);
    let lay_out = |server: &Principal| {
        finish_process_as_req(
            &policy(),
            REALM,
            &b,
            &client,
            server,
            &server.name,
            &passed(),
            &[],
            None,
            made(None, Ok(()), Ok(())),
            session(),
            Ok(Some(&tgs)),
            1_000,
            &|n: &String| if n == "aes256-sha2" { Some(20) } else { None },
            &|k: &EncryptionKey, label: &str, ty: i32| {
                assert_eq!((k.keyvalue[0], label), (8, "pac_privsvr"));
                Some(EncryptionKey { keytype: ty, keyvalue: vec![0x99; 32] })
            },
        )
        .map(|p| (p.kdc_key.keytype, p.kdc_key.keyvalue[0]))
    };
    assert_eq!(lay_out(&host), Ok((18, 8)), "the key of the local service");
    host.string_attrs = vec![("pac_privsvr_enctype".to_string(), "aes256-sha2".to_string())];
    assert_eq!(lay_out(&host), Ok((20, 0x99)));
    host.string_attrs[0].1 = "unheard-of".to_string();
    assert_eq!(lay_out(&host), Err(proto(GENERIC, Status::HeaderPac)));
}

fn outer_form(b: &Vec<u8>) -> Result<EncryptedData, Error> {
    if b.is_empty() {
        return Err(Error::Asn1("empty".to_string()));
    }
    Ok(EncryptedData { etype: 18, kvno: None, cipher: b.clone() })
}

#[test]
fn client_times_are_within_the_skew() {
    let p = policy();
    let user = princ(&["user"]);
    let judge = |t: ClientTime, now: u32, kept: bool| {
        verify_enc_timestamp(
            &p,
            REALM,
            &user,
            &own_key(),
            &b"blob".to_vec(),
            now,
            &outer_form,
            &|k: &EncryptionKey, usage: u32, c: &Vec<u8>| {
                assert_eq!((k, usage, c.as_slice()), (&own_key(), 1, &b"blob"[..]));
                Ok(t)
            },
            &|client: &String, server: &String, time: u32, micros: i32, blob: &Vec<u8>| {
                assert_eq!(client, "user@KERBER.TEST");
                assert_eq!(server, "krbtgt/KERBER.TEST@KERBER.TEST");
                assert_eq!((time, micros), (t.seconds, t.micros.unwrap_or(0)));
                assert_eq!(blob, b"blob");
                kept
            },
        )
    };
    let t = |s: u32, m: Option<i32>| ClientTime { seconds: s, micros: m };
    let refused = |code: i32| Err(proto(code, Status::PreauthFailed));
    assert_eq!(judge(t(1_000, Some(5)), 1_300, false), Ok(()));
    assert_eq!(judge(t(1_000, None), 1_301, false), refused(SKEW));
    assert_eq!(judge(t(1_301, None), 1_000, false), refused(SKEW));
    assert_eq!(judge(t(1_000, Some(1_000_000)), 1_000, false), refused(GENERIC));
    assert_eq!(judge(t(1_000, None), 1_000, true), refused(REPEAT));
}

#[test]
fn timestamps_that_do_not_open_keep_their_error() {
    let user = princ(&["user"]);
    let judge = |blob: &[u8]| {
        verify_enc_timestamp(
            &policy(),
            REALM,
            &user,
            &own_key(),
            &blob.to_vec(),
            1_000,
            &outer_form,
            &|_: &EncryptionKey, _: u32, _: &Vec<u8>| Err(Error::Crypto("mac".to_string())),
            &|_: &String, _: &String, _: u32, _: i32, _: &Vec<u8>| panic!("nothing to keep"),
        )
    };
    assert_eq!(judge(b""), Err(Error::Asn1("empty".to_string())));
    assert_eq!(judge(b"x"), Err(Error::Crypto("mac".to_string())));
}

#[test]
fn challenges_have_a_key_of_their_own() {
    let user = princ(&["user"]);
    let combine = |a: &EncryptionKey, b: &EncryptionKey, p: &str, q: &str| {
        assert_eq!((a, b, q), (&module_key(), &own_key(), "challengelongterm"));
        let octet = if p == "clientchallengearmor" { 1 } else { 2 };
        Ok(EncryptionKey { keytype: 20, keyvalue: vec![octet; 32] })
    };
    let judge = |opens: bool| {
        verify_encrypted_challenge(
            &policy(),
            REALM,
            &user,
            &own_key(),
            &module_key(),
            &b"blob".to_vec(),
            1_000,
            &outer_form,
            &combine,
            &|k: &EncryptionKey, usage: u32, _: &Vec<u8>| {
                assert_eq!((k.keyvalue[0], usage), (1, 54));
                if opens {
                    Ok(ClientTime { seconds: 1_000, micros: None })
                } else {
                    Err(Error::Crypto("mac".to_string()))
                }
            },
            &|_: &String, _: &String, _: u32, _: i32, _: &Vec<u8>| false,
        )
    };
    assert_eq!(judge(true), Ok(()));
    assert_eq!(judge(false), Err(proto(PREAUTH_FAILED, Status::PreauthFailed)));
    let answer = kdc_encrypted_challenge(
        &module_key(),
        &own_key(),
        1_234,
        &combine,
        &|k: &EncryptionKey, usage: u32, t: &ClientTime| {
            assert_eq!((k.keyvalue[0], usage), (2, 55));
            assert_eq!(*t, ClientTime { seconds: 1_234, micros: None });
            Ok(b"sealed".to_vec())
        },
        &|x: &EncryptedData| {
            assert_eq!((x.etype, x.kvno), (20, None));
            Ok(x.cipher.clone())
        },
    );
    assert_eq!(answer, Ok(pa(PA_ENCRYPTED_CHALLENGE, b"sealed")));
}
