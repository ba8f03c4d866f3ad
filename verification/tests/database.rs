use krb5_kdc::acl::AdminOp;
use krb5_kdc::error::Error;
use krb5_kdc::gss::export::KeyShape;
use krb5_kdc::kdb::{pac_identity, MemoryStore, PrincipalRead, PrincipalWrite};
use krb5_kdc::kdb_dump::database::{dump_store, load_dump};
use krb5_kdc::kdb_dump::entry::{parse_unparsed, DomainSid, KDB_V1_BASE_LENGTH, TL_MKVNO};
use krb5_kdc::kdb_dump::write::write_records;
use krb5_kdc::kdb_dump::{parse_dump, DumpError, DumpKeyData, DumpKeySlot, DumpPrincipal};
use krb5_kdc::mkey::{harness_master_etype, master_name, master_salt};
use krb5_kdc::name::{lookup_principal_id, PrincipalName, NT_ENTERPRISE, NT_PRINCIPAL, NT_SRV_HST};
use krb5_kdc::osa::{decrypt_entry, history_entry, OsaError, OsaPrincEnt, INITIAL_HIST_KVNO};
use krb5_kdc::persist::load::{list_principals, load_store};
use krb5_kdc::persist::plain::{parse_plain, serialize_plain, PlainEntry, Refusals, SidTrailer};
use krb5_kdc::persist::ulog::{load_ulog, save_ulog, UlogEntry};
use krb5_kdc::persist::{
    contents, existing_stash_key, starts_as_dump, Contents, PersistError, StashTry,
    STASH_ETYPES,
};
use krb5_kdc::realm::{
    acl_open_error, acl_syntax_error, admin_id_for_realm, apply_kadm5_create_service_attrs,
    bootstrap_realm, default_acl_path, host_for_realm, kdb5_util_id_for_realm,
    KADM5_ADMIN_LIFETIME, KADM5_CHANGEPW_LIFETIME,
};
use krb5_kdc::store::{
    KeyEntry, NamedPolicy, Policy, Principal, TlData, KDB_DISALLOW_TGT_BASED, KDB_LOCKDOWN_KEYS,
    KDB_PWCHANGE_SERVICE, KDB_REQUIRES_PRE_AUTH, TL_KADM_DATA,
};

const REALM: &str = "KERBER.TEST";

fn name(parts: &[&str]) -> PrincipalName {
    PrincipalName {
        name_type: NT_PRINCIPAL,
        name_string: parts.iter().map(|s| s.to_string()).collect(),
    }
}

fn policy() -> Policy {
    Policy {
        max_life: 36_000,
        max_renewable_life: 604_800,
        realm_max_renewable_life: 604_800,
        skew: 300,
        known_enctypes: vec![17, 18, 19, 20],
        permitted_enctypes: vec![20, 18],
        allow_des3: false,
        allow_rc4: false,
        disable_pac: false,
        restrict_anon: false,
        reject_bad_transit: true,
        host_based_services: String::new(),
        no_host_referral: String::new(),
        pkinit: false,
        spake_preauth_groups: Vec::new(),
        pkinit_indicators: Vec::new(),
        spake_preauth_indicators: Vec::new(),
        encrypted_challenge_indicator: None,
    }
}

fn key(etype: i32, kvno: u32, octet: u8) -> KeyEntry {
    KeyEntry { etype, kvno, key: vec![octet; 32], salt_type: None, kdb_salt: None }
}

fn princ(parts: &[&str]) -> Principal {
    let mut p = Principal::nobody();
    p.name = name(parts);
    p.realm = REALM.to_string();
    p
}

fn record(n: &str) -> DumpPrincipal {
    DumpPrincipal {
        db_len: KDB_V1_BASE_LENGTH,
        name: n.to_string(),
        attributes: KDB_REQUIRES_PRE_AUTH,
        max_life: 36_000,
        max_renewable_life: 0,
        expiration: 0,
        pw_expiration: 9,
        last_success: 1,
        last_failed: 2,
        fail_auth_count: 3,
        tl_data: vec![TlData { ty: TL_MKVNO, contents: vec![1, 0] }],
        keys: vec![DumpKeyData {
            ver: 2,
            kvno: 4,
            slots: vec![
                DumpKeySlot { ty: 18, contents: vec![0xab, 0x01] },
                DumpKeySlot { ty: 4, contents: b"salt".to_vec() },
            ],
        }],
        e_data: Vec::new(),
    }
}

#[test]
fn salt_is_realm_km() {
    assert_eq!(master_name().default_salt("KERBER.TEST"), b"KERBER.TESTKM");
    assert_eq!(master_salt("KERBER.TEST"), b"KERBER.TESTKM");
    assert_eq!(master_name().components_joined(), "K/M");
    assert_eq!(harness_master_etype(), 20);
}

#[test]
fn records_are_written_and_read() {
    let text = write_records(&[record("user@KERBER.TEST")]);
    assert_eq!(
        text,
        "kdb5_util load_dump version 7\nprinc\t38\t16\t1\t1\t0\tuser@KERBER.TEST\t128\t36000\t0\t0\t9\t1\t2\t3\t8\t2\t0100\t2\t4\t18\t2\tab01\t4\t4\t73616c74\t-1;\n"
    );
    let f = parse_dump(&text).unwrap();
    assert_eq!(f.version, 7);
    assert_eq!(f.princs, [record("user@KERBER.TEST")]);
    assert_eq!(f.realm().unwrap(), REALM);
    assert!(f.princ("user@KERBER.TEST").is_some());
    assert!(f.princ("other@KERBER.TEST").is_none());
}

#[test]
fn bad_dumps_are_refused() {
    let refused = |t: &str| match parse_dump(t) {
        Err(DumpError::Format(m)) => m,
        Err(e) => panic!("{}", e.message()),
        Ok(_) => panic!("accepted"),
    };
    assert_eq!(refused(""), "empty dump");
    assert_eq!(refused("hello\n"), "bad dump header: hello");
    assert_eq!(refused("kdb5_util load_dump version x\n"), "bad dump version: x");
    assert_eq!(refused("kdb5_util load_dump version 7\n"), "dump has no princ records");
    assert!(parse_dump("kdb5_util load_dump version 5\n").is_err());
    assert!(parse_dump("kdb5_util load_dump version 7\nprinc\t38\t16\n").is_err());
    assert_eq!(DumpError::Crypto("x".to_string()).message(), "dump crypto: x");
    assert_eq!(DumpError::Io("y".to_string()).message(), "dump io: y");
}

#[test]
fn unparsed_names_are_read() {
    let (n, realm) = parse_unparsed("host/a.b@KERBER.TEST", "bad").unwrap();
    assert_eq!((n.name_type, n.components_joined(), realm.as_str()), (
        NT_SRV_HST,
        "host/a.b".to_string(),
        REALM
    ));
    assert_eq!(
        parse_unparsed("user", "bad").err(),
        Some(DumpError::Format("missing realm in user".to_string()))
    );
    assert_eq!(
        parse_unparsed("\u{fc}ser@KERBER.TEST", "not ascii").err(),
        Some(DumpError::Format("not ascii".to_string()))
    );
}

#[test]
fn dumps_become_databases() {
    let text = write_records(&[record("K/M@KERBER.TEST"), record("user@KERBER.TEST")]);
    let opened = |km: u8| vec![vec![Ok(vec![km; 32])], vec![Ok(vec![5; 32])]];
    let (store, sid) = load_dump(&text, policy(), &[7; 32], &opened(7), "bad").unwrap();
    assert!(sid.is_none());
    let user = store.fetch("user@KERBER.TEST").unwrap().expect("user");
    assert_eq!(user.keys[0].key, [5; 32]);
    assert_eq!((user.keys[0].etype, user.keys[0].kvno), (18, 4));
    assert_eq!(user.salt, b"salt");
    assert!(user.requires_preauth);
    assert_eq!(user.fail_auth_count, 3);
    assert_eq!(
        load_dump(&text, policy(), &[7; 32], &opened(8), "bad").err(),
        Some(DumpError::Crypto("K/M key_data does not match derived master key".to_string()))
    );
    let locked = vec![vec![Ok(vec![7; 32])], vec![Err("bad mac".to_string())]];
    assert_eq!(
        load_dump(&text, policy(), &[7; 32], &locked, "bad").err(),
        Some(DumpError::Crypto("bad mac".to_string()))
    );
}

#[test]
fn databases_are_dumped() {
    let domain =
        DomainSid { revision: 1, identifier_authority: [0, 0, 0, 0, 0, 5], sub_authority: vec![21] };
    let mut user = princ(&["user"]);
    user.keys = vec![key(18, 1, 5)];
    user.rid = 1001;
    let text = dump_store(
        REALM,
        &[user],
        &policy(),
        &domain,
        20,
        vec![9; 32],
        100,
        Ok(vec![1, 2]),
        &[vec![Ok(vec![3, 4])]],
    )
    .unwrap();
    assert!(text.starts_with("kdb5_util load_dump version 7\nprinc\t38\t15\t"));
    let f = parse_dump(&text).unwrap();
    let names: Vec<&str> = f.princs.iter().map(|p| p.name.as_str()).collect();
    assert_eq!(names, ["K/M@KERBER.TEST", "user@KERBER.TEST"]);
    let opened = vec![vec![Ok(vec![9; 32])], vec![Ok(vec![5; 32])]];
    let (store, sid) = load_dump(&text, policy(), &[9; 32], &opened, "bad").unwrap();
    assert_eq!(sid, Some(domain.clone()));
    let back = store.fetch("user@KERBER.TEST").unwrap().unwrap();
    assert_eq!((back.rid, back.keys[0].key.clone()), (1001, vec![5; 32]));
    assert_eq!(store.list_ids(), ["K/M@KERBER.TEST", "user@KERBER.TEST"], "the master key only");
    assert_eq!(
        dump_store(
            REALM,
            &[],
            &policy(),
            &domain,
            20,
            vec![9; 32],
            100,
            Err("no key".to_string()),
            &[]
        )
        .err(),
        Some(DumpError::Crypto("no key".to_string()))
    );
}

#[test]
fn files_tell_their_format() {
    assert!(starts_as_dump(b"kdb5_util load_dump version 7\n"));
    assert!(!starts_as_dump(b"kdb5_util"));
    assert_eq!(
        contents(b"kdb5_util load_dump version 7\n"),
        Ok(Contents::Dump("kdb5_util load_dump version 7\n"))
    );
    assert_eq!(contents(b"KDB3...."), Ok(Contents::Blob { v2: false, v3: true }));
    assert_eq!(contents(b"KDB2"), Ok(Contents::Blob { v2: true, v3: false }));
    assert_eq!(contents(b"KD"), Err(PersistError::Format("missing KDB magic".to_string())));
    assert_eq!(
        contents(b"KDB4"),
        Err(PersistError::Format("missing dump header or KDB1/KDB2/KDB3 magic".to_string()))
    );
    assert_eq!(
        contents(b"kdb5_util load_dump version \xff"),
        Err(PersistError::Format("dump is not utf-8".to_string()))
    );
}

#[test]
fn stashed_keys_are_tried() {
    assert_eq!(STASH_ETYPES, [20, 18]);
    let t = |usable: bool, opens: bool| StashTry { usable, opens };
    assert_eq!(existing_stash_key(&[t(true, false), t(true, true)]), Ok(1));
    assert_eq!(existing_stash_key(&[t(true, false), t(true, false)]), Ok(0));
    assert_eq!(
        existing_stash_key(&[t(false, false)]),
        Err(PersistError::Crypto("stash is not a usable master key".to_string()))
    );
    assert_eq!(
        PersistError::from_dump(DumpError::Format("x".to_string())),
        PersistError::Format("x".to_string())
    );
}

#[test]
fn update_logs_round_trip() {
    let log = vec![
        UlogEntry { sno: 1, time: 10, deleted: false, name: "user@KERBER.TEST".to_string() },
        UlogEntry { sno: 2, time: 11, deleted: true, name: "a b@KERBER.TEST".to_string() },
    ];
    let text = save_ulog(&log);
    assert_eq!(load_ulog(&text).unwrap(), log);
    assert_eq!(load_ulog("nonsense\n"), Err(PersistError::Format("ulog header".to_string())));
}

#[test]
fn plain_lists_round_trip() {
    let shapes = [KeyShape { keytype: 18, len: 32 }];
    let w = Refusals { shapes: &shapes, key: "bad key", name: "bad name" };
    let entry = PlainEntry {
        name: name(&["user"]),
        salt: b"KERBER.TESTuser".to_vec(),
        requires_preauth: true,
        max_life: 36_000,
        keys: vec![key(18, 1, 5)],
        locked: false,
        pw_expire: 7,
    };
    let t = SidTrailer {
        sddl: "S-1-5-21-1-2-3".to_string(),
        next_rid: 1002,
        rids: vec![("user@KERBER.TEST".to_string(), 1001)],
    };
    let b = serialize_plain(REALM, &[entry.clone()], &t);
    let db = parse_plain(&b, false, true, &w, &|t: &str| t == "S-1-5-21-1-2-3").unwrap();
    assert_eq!((db.realm.as_str(), &db.entries), (REALM, &vec![entry.clone()]));
    assert_eq!(db.sids, Some(t));
    let (realm, ps, sddl) = list_principals(db);
    assert_eq!((realm.as_str(), sddl.as_deref()), (REALM, Some("S-1-5-21-1-2-3")));
    assert_eq!((ps.len(), &ps[0].name, &ps[0].keys), (1, &entry.name, &entry.keys));
    assert_eq!(ps[0].id(), "user@KERBER.TEST");
    assert_eq!((ps[0].rid, ps[0].locked, ps[0].pw_expire), (1001, false, 7));
    assert!(parse_plain(&b[..b.len() / 2], false, true, &w, &|_: &str| true).is_err(), "cut short");
    assert_eq!(
        parse_plain(&b, false, true, &w, &|_: &str| false).err(),
        Some(PersistError::Format(
            "SID1 trailer is not valid SDDL: S-1-5-21-1-2-3".to_string()
        ))
    );
    assert_eq!(
        parse_plain(&b[..b.len() - 1], false, true, &w, &|_: &str| false).err(),
        Some(PersistError::Format(
            "SID1 trailer is not valid SDDL: S-1-5-21-1-2-3".to_string()
        )),
        "the identifier is judged before what stands behind it"
    );
    let none = Refusals { shapes: &[], key: "bad key", name: "bad name" };
    assert_eq!(
        parse_plain(&b, false, true, &none, &|_: &str| true).err(),
        Some(PersistError::Crypto("bad key".to_string()))
    );
}

#[test]
fn entries_are_kept_by_id() {
    let mut s = MemoryStore::new(REALM.to_string(), policy());
    s.put_principal(princ(&["b"]));
    s.put_principal(princ(&["a"]));
    let mut again = princ(&["b"]);
    again.rid = 7;
    s.put_principal(again);
    assert_eq!(s.list_ids(), ["a@KERBER.TEST", "b@KERBER.TEST"]);
    assert_eq!(s.fetch("b@KERBER.TEST").unwrap().unwrap().rid, 7);
    assert_eq!(s.remove_id("c@KERBER.TEST"), Err(Error::NotFound));
    assert_eq!(s.remove_id("a@KERBER.TEST"), Ok(()));
    assert!(s.fetch("a@KERBER.TEST").unwrap().is_none());
    assert_eq!(s.write_principal(princ(&["c"])), Ok(()));
    assert_eq!(s.delete_id("c@KERBER.TEST"), Ok(()));
    assert_eq!(s.take_id("b@KERBER.TEST").unwrap().rid, 7);
    assert!(s.list_ids().is_empty());
}

#[test]
fn policies_are_found_by_name() {
    let mut s = MemoryStore::new(REALM.to_string(), policy());
    let mut p = princ(&["user"]);
    assert!(s.named_policy_for(&p).is_none());
    assert_eq!(s.max_fail_for(&p), 0);
    s.put_policy(NamedPolicy {
        name: "hp".to_string(),
        max_fail: 5,
        pw_failcnt_interval: 1,
        pw_lockout_duration: 2,
    });
    p.pw_policy = Some("hp".to_string());
    assert_eq!(s.max_fail_for(&p), 5);
    let id = pac_identity(&s, &name(&["user"]), REALM);
    assert_eq!((id.sam.as_str(), id.rid), ("user", 1000));
}

#[test]
fn failures_are_counted() {
    let mut s = MemoryStore::from_principals(REALM.to_string(), policy(), vec![princ(&["user"])]);
    let p = princ(&["user"]);
    s.record_as_outcome(&p.name, false, 5);
    s.record_as_outcome(&p.name, false, 6);
    assert_eq!((s.fail_auth_of(&p), s.last_failed_of(&p), s.last_success_of(&p)), (2, 6, 0));
    s.record_as_outcome(&p.name, true, 7);
    assert_eq!((s.fail_auth_of(&p), s.last_failed_of(&p), s.last_success_of(&p)), (0, 6, 7));
}

#[test]
fn names_are_looked_up_by_id() {
    assert_eq!(lookup_principal_id(&name(&["host", "a"]), REALM), "host/a@KERBER.TEST");
    let e = PrincipalName {
        name_type: NT_ENTERPRISE,
        name_string: vec!["user@KERBER.TEST".to_string()],
    };
    assert_eq!(lookup_principal_id(&e, REALM), "user@KERBER.TEST");
    assert!(PrincipalName::try_new(1, vec!["ok".to_string()]).is_some());
    assert!(PrincipalName::try_new(1, vec!["n\u{e9}".to_string()]).is_none());
}

#[test]
fn realms_start_with_their_services() {
    assert_eq!(admin_id_for_realm(REALM), "admin@KERBER.TEST");
    assert_eq!(kdb5_util_id_for_realm(REALM), "kdb5_util@KERBER.TEST");
    let host = host_for_realm(REALM);
    assert_eq!((host.name_type, host.components_joined().as_str()), (
        NT_SRV_HST,
        "host/testhost.kerber.test"
    ));
    assert_eq!(default_acl_path("/var/kdc"), "/var/kdc/kadm5.acl");
    assert_eq!(default_acl_path("/var/kdc/"), "/var/kdc/kadm5.acl");
    assert_eq!(default_acl_path(""), "kadm5.acl");
    let entries =
        || vec![princ(&["kadmin", "admin"]), princ(&["kadmin", "changepw"]), princ(&["user"])];
    let (store, acl) = bootstrap_realm(REALM.to_string(), policy(), entries()).unwrap();
    let admin = store.fetch("kadmin/admin@KERBER.TEST").unwrap().unwrap();
    assert_eq!(admin.attributes, KDB_DISALLOW_TGT_BASED | KDB_LOCKDOWN_KEYS);
    assert_eq!(admin.max_life, KADM5_ADMIN_LIFETIME);
    let changepw = store.fetch("kadmin/changepw@KERBER.TEST").unwrap().unwrap();
    assert_eq!(
        changepw.attributes,
        KDB_DISALLOW_TGT_BASED | KDB_PWCHANGE_SERVICE | KDB_LOCKDOWN_KEYS
    );
    assert_eq!(changepw.max_life, KADM5_CHANGEPW_LIFETIME);
    assert_eq!(store.fetch("user@KERBER.TEST").unwrap().unwrap().attributes, 0);
    assert!(acl.check("admin@KERBER.TEST", AdminOp::Delete, None).is_ok());
    assert_eq!(acl.check("user@KERBER.TEST", AdminOp::Delete, None), Err(Error::AclDenied));
    assert_eq!(
        bootstrap_realm(REALM.to_string(), policy(), vec![princ(&["user"])]).err(),
        Some(Error::NotFound)
    );
    let mut half =
        MemoryStore::from_principals(REALM.to_string(), policy(), vec![princ(&["kadmin", "admin"])]);
    assert_eq!(apply_kadm5_create_service_attrs(&mut half), Err(Error::NotFound));
    assert_eq!(half.fetch("kadmin/admin@KERBER.TEST").unwrap().unwrap().max_life, 10_800);
}

#[test]
fn access_lists_say_what_is_wrong() {
    assert_eq!(
        acl_open_error("/x/kadm5.acl", "No such file or directory"),
        Error::AclParse(
            "Cannot open /x/kadm5.acl: No such file or directory while initializing ACL file, aborting"
                .to_string()
        )
    );
    assert_eq!(
        acl_syntax_error("Unrecognized ACL operation 'Z'", "a.acl", 3, "bad@KERBER.TEST aZ"),
        Error::AclParse(
            "Unrecognized ACL operation 'Z'\na.acl: syntax error at line 3 <bad@KERBER...> while initializing ACL file, aborting"
                .to_string()
        )
    );
}

#[test]
fn password_histories_are_kept() {
    let keys = [key(18, 1, 5), key(18, 2, 6)];
    let entry = history_entry(&keys, vec![Some(vec![1]), Some(vec![2])]).unwrap();
    assert_eq!(entry.len(), 2);
    assert_eq!((entry[0].types[0], entry[0].contents[0].clone()), (18, vec![1]));
    assert!(history_entry(&keys, vec![Some(vec![1]), None]).is_none());
    let back = decrypt_entry(&entry, &[Some(vec![5; 32]), None]);
    assert_eq!(back.len(), 1);
    assert_eq!((back[0].etype, back[0].kvno, back[0].key.clone()), (18, 1, vec![5; 32]));
    assert_eq!(OsaPrincEnt::default().admin_history_kvno, INITIAL_HIST_KVNO);
    let tl = [TlData { ty: TL_KADM_DATA, contents: OsaPrincEnt::default().encode() }];
    assert_eq!(OsaPrincEnt::from_tl(&tl).unwrap(), Some(OsaPrincEnt::default()));
    assert_eq!(OsaPrincEnt::from_tl(&[]), Ok(None));
    assert!(matches!(OsaPrincEnt::decode(&[0x12]), Err(OsaError::Xdr(_))));
}

#[test]
fn ticket_granting_keys_are_gathered() {
    let mut store = MemoryStore::new(REALM.to_string(), policy());
    assert!(store.krbtgt_keys().is_empty());
    let entry = |parts: &[&str], octet: u8| {
        let mut p = princ(parts);
        p.keys = vec![key(18, 1, octet)];
        p
    };
    store.put_principal(entry(&["krbtgt", "OTHER.TEST"], 2));
    store.put_principal(entry(&["krbtgt", REALM], 1));
    store.put_principal(entry(&["user"], 3));
    let octets: Vec<u8> = store.krbtgt_keys().iter().map(|k| k.key[0]).collect();
    assert_eq!(octets, [1, 2]);
}

#[test]
fn dumps_keep_attributes_and_times() {
    let domain =
        DomainSid { revision: 1, identifier_authority: [0, 0, 0, 0, 0, 5], sub_authority: vec![21] };
    let mut km = princ(&["K", "M"]);
    km.keys = vec![key(20, 1, 9)];
    let mut user = princ(&["svc", "host"]);
    user.keys = vec![key(18, 2, 5)];
    user.requires_preauth = true;
    user.locked = true;
    user.max_life = 60;
    user.last_failed = 77;
    user.fail_auth_count = 2;
    let sealed = [vec![Ok(vec![3, 4])], vec![Ok(vec![1, 2])]];
    let text = dump_store(
        REALM,
        &[user, km],
        &policy(),
        &domain,
        20,
        vec![9; 32],
        100,
        Err("unused".to_string()),
        &sealed,
    )
    .unwrap();
    let opened = vec![vec![Ok(vec![9; 32])], vec![Ok(vec![5; 32])]];
    let (store, sid) = load_dump(&text, policy(), &[9; 32], &opened, "bad").unwrap();
    assert_eq!(sid, Some(domain));
    let back = store.fetch("svc/host@KERBER.TEST").unwrap().unwrap();
    assert!(back.requires_preauth && back.locked);
    assert_ne!(back.attributes & KDB_REQUIRES_PRE_AUTH, 0);
    assert_eq!((back.max_life, back.max_renewable_life), (60, 604_800));
    assert_eq!((back.last_failed, back.fail_auth_count), (77, 2));
    assert_eq!((back.keys[0].kvno, back.keys[0].key.clone()), (2, vec![5; 32]));
}

#[test]
fn databases_of_every_format_are_loaded() {
    let stash = vec![7u8; 32];
    let dump = b"kdb5_util load_dump version 7\n".to_vec();
    let old = |format: u8| {
        let mut v = b"KDB0".to_vec();
        v[3] = b'0' + format;
        v.extend_from_slice(b"sealed");
        v
    };
    // The dump opens under a key of the second type only.
    let loads = |opens: i32| {
        move |etype: i32, key: &Vec<u8>, text: &str| {
            assert_eq!((key.as_slice(), text), (&[7u8; 32][..], "kdb5_util load_dump version 7\n"));
            if etype == opens {
                Some(format!("dump under {etype}"))
            } else {
                None
            }
        }
    };
    let open = |key: &Vec<u8>, cipher: &Vec<u8>| {
        assert_eq!((key.as_slice(), cipher.as_slice()), (&[7u8; 32][..], &b"sealed"[..]));
        Ok(b"list".to_vec())
    };
    let list = |plain: &Vec<u8>, v2: bool, v3: bool| {
        assert_eq!(plain, b"list");
        Ok(format!("list {v2} {v3}"))
    };
    let run = |blob: Option<&[u8]>, log: Option<&str>, opens: i32| {
        load_store(&stash, blob, log, &loads(opens), &open, &list)
    };
    assert_eq!(run(Some(&dump), None, 18), Ok(("dump under 18".to_string(), Vec::new())));
    assert_eq!(run(Some(&dump), None, 20).unwrap().0, "dump under 20");
    assert_eq!(
        run(Some(&dump), None, 17),
        Err(PersistError::Crypto("stash master key did not decrypt dump key_data".to_string()))
    );
    assert_eq!(run(Some(&old(1)), None, 18).unwrap().0, "list false false");
    assert_eq!(run(Some(&old(2)), None, 18).unwrap().0, "list true false");
    assert_eq!(run(Some(&old(3)), None, 18).unwrap().0, "list false true");
    assert_eq!(
        run(Some(&old(4)), None, 18),
        Err(PersistError::Format("missing dump header or KDB1/KDB2/KDB3 magic".to_string()))
    );
    assert!(matches!(run(None, None, 18), Err(PersistError::Format(_))), "no database");
    let log = "ulog 1\n1\t10\t1\tuser@KERBER.TEST\n";
    let (_, entries) = run(Some(&dump), Some(log), 18).unwrap();
    assert_eq!((entries.len(), entries[0].sno, entries[0].deleted), (1, 1, true));
    assert_eq!(
        run(Some(&dump), Some("log"), 18),
        Err(PersistError::Format("ulog header".to_string()))
    );
    let sealed = |_: &Vec<u8>, _: &Vec<u8>| Err(PersistError::Crypto("integrity".to_string()));
    assert_eq!(
        load_store(&stash, Some(&old(3)), None, &loads(18), &sealed, &list),
        Err(PersistError::Crypto("integrity".to_string()))
    );
}
