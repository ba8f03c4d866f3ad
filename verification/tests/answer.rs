use std::cell::RefCell;

use krb5_kdc::ad::s4u::{ForUser, S4uReader, S4uUserId, X509User};
use krb5_kdc::ad::{CksumOutcome, CksumType, LogonSids};
use krb5_kdc::error::{
    proto, Error, Status, BADMATCH, BADOPTION, BAD_INTEGRITY, CLIENT_REVOKED, C_PRINCIPAL_UNKNOWN,
    DISCARD, GENERIC, MODIFIED, PADATA_TYPE_NOSUPP, POLICY, PREAUTH_FAILED, PREAUTH_REQUIRED,
    REPEAT, SKEW, S_PRINCIPAL_UNKNOWN,
};
use krb5_kdc::flags::{Flags, FORWARDABLE, INITIAL, PRE_AUTHENT};
use krb5_kdc::issue::answer::{issue_as_body, AsIssue, PreauthOutcome};
use krb5_kdc::issue::answer_tgs::{
    issue_tgs_body, TgsHeader, TgsIssue, TgsOutcome, TgsPresented,
};
use krb5_kdc::issue::assemble::{as_session, issue_as_reply, AsSession, IssuedAs};
use krb5_kdc::issue::assemble_tgs::{issue_tgs_reply, IssuedTgs};
use krb5_kdc::issue::as_req::{AsLookup, AsPreauth, IssueOutcome, PreauthAction};
use krb5_kdc::issue::client_time::ClientTime;
use krb5_kdc::issue::dispatch::{answer_as, answer_tgs, handle_request, ErrorGround};
use krb5_kdc::issue::fast_util::{issue_as_from, issue_tgs_from, FailureForm, FastOk};
use krb5_kdc::issue::header::HeaderTgt;
use krb5_kdc::issue::kdc_util::Authenticator;
use krb5_kdc::issue::mint::{mint_ticket, MintTerms};
use krb5_kdc::issue::reply::{Dispatch, EncKdcRepPart, FastFacts, KrbError};
use krb5_kdc::issue::sprinc::HostFacts;
use krb5_kdc::issue::ticket_pac::{PacSubject, TgsSigner};
use krb5_kdc::issue::tgs_req::{TgsChecked, TgsFacts, TgsRequest, TgsSubject, TicketTimes};
use krb5_kdc::kdb::{MemoryStore, PrincipalRead};
use krb5_kdc::msg::{
    AuthDatum, EncTicketPart, EncryptedData, EncryptionKey, KdcReqBody, PaData, Ticket,
    TransitedEncoding, MSG_AS_REQ, MSG_TGS_REQ, PA_ENCRYPTED_CHALLENGE, PA_FOR_USER,
};
use krb5_kdc::name::{PrincipalName, NT_PRINCIPAL};
use krb5_kdc::pac::reply::SignInput;
use krb5_kdc::pac::{ClientInfo, FreshPac, PacBuffer, PacFacts, SignatureForm};
use krb5_kdc::plugins::{DefaultPolicy, DemoPolicy, DemoPreauth, DenyPolicy, KdcPolicy};
use krb5_kdc::store::{KeyEntry, NamedPolicy, Policy, Principal};

const REALM: &str = "KERBER.TEST";

fn name(parts: &[&str]) -> PrincipalName {
    PrincipalName {
        name_type: NT_PRINCIPAL,
        name_string: parts.iter().map(|s| s.to_string()).collect(),
    }
}

fn policy() -> Policy {
    Policy {
        max_life: 36_000,
        max_renewable_life: 604_800,
        realm_max_renewable_life: 604_800,
        skew: 300,
        known_enctypes: vec![17, 18, 19, 20, 23],
        permitted_enctypes: vec![20, 18, 23],
        allow_des3: false,
        allow_rc4: false,
        disable_pac: false,
        restrict_anon: false,
        reject_bad_transit: true,
        host_based_services: String::new(),
        no_host_referral: String::new(),
        pkinit: false,
        spake_preauth_groups: Vec::new(),
        pkinit_indicators: Vec::new(),
        spake_preauth_indicators: Vec::new(),
        encrypted_challenge_indicator: None,
    }
}

fn princ(parts: &[&str]) -> Principal {
    let mut p = Principal::nobody();
    p.name = name(parts);
    p.realm = REALM.to_string();
    let key = key(parts[0]).keyvalue;
    p.keys = vec![KeyEntry { etype: 18, kvno: 1, key, salt_type: None, kdb_salt: None }];
    p
}

/// The key of an entry, by the first component of its name.
fn key(first: &str) -> EncryptionKey {
    let octet = match first {
        "user" => 7,
        "krbtgt" => 8,
        _ => 10,
    };
    EncryptionKey { keytype: 18, keyvalue: vec![octet; 32] }
}

fn user() -> Principal {
    let mut p = princ(&["user"]);
    p.salt = b"salt".to_vec();
    p.requires_preauth = true;
    p
}

fn store(user: Principal) -> MemoryStore {
    MemoryStore::from_principals(
        REALM.to_string(),
        policy(),
        vec![user, princ(&["krbtgt", REALM]), princ(&["host", "a.kerber.test"])],
    )
}

fn body(cname: Option<&[&str]>, sname: &[&str]) -> KdcReqBody {
    KdcReqBody {
        kdc_options: Flags::none().with_bit(FORWARDABLE, true),
        cname: cname.map(name),
        realm: REALM.to_string(),
        sname: Some(name(sname)),
        from: None,
        till: 5_000,
        rtime: None,
        nonce: 41,
        etype: vec![18],
        addresses: None,
    }
}

fn pa(ty: i32, value: &[u8]) -> PaData {
    PaData { padata_type: ty, padata_value: value.to_vec() }
}

fn preauthenticated(module: Result<Option<PreauthAction>, Error>) -> PreauthOutcome {
    PreauthOutcome { module, hint: vec![0x30], info2: None }
}

fn no_data(_: &Vec<u8>) -> Vec<PaData> {
    Vec::new()
}

fn written(v: &Vec<PaData>) -> Option<Vec<u8>> {
    Some(v.iter().map(|p| p.padata_type as u8).collect())
}

/// The key of a reply to the user.
fn reply_key() -> EncryptionKey {
    key("user")
}

fn subkey() -> EncryptionKey {
    EncryptionKey { keytype: 18, keyvalue: vec![0x55; 32] }
}

fn armor() -> EncryptionKey {
    EncryptionKey { keytype: 18, keyvalue: vec![0x77; 32] }
}

/// A drawn key: of the type that is asked for.
fn drawn(etype: i32) -> Result<EncryptionKey, Error> {
    Ok(EncryptionKey { keytype: etype, keyvalue: vec![0x66; 32] })
}

fn no_type(_: &String) -> Option<i32> {
    None
}

fn no_key(_: &EncryptionKey, _: &str, _: i32) -> Option<EncryptionKey> {
    None
}

fn not_exchanged(_: &EncryptionKey, _: u32, _: &EncryptionKey) -> Result<Vec<u8>, Error> {
    Err(Error::Rng)
}

fn outer_form(b: &Vec<u8>) -> Result<EncryptedData, Error> {
    Ok(EncryptedData { etype: 18, kvno: None, cipher: b.clone() })
}

/// Opens a challenge that names the key and the usage it is under.
fn open_time(k: &EncryptionKey, usage: u32, c: &Vec<u8>) -> Result<ClientTime, Error> {
    let long = combine(&armor(), &reply_key(), "clientchallengearmor", "challengelongterm")?;
    assert_eq!((k, usage), (&long, 54));
    match c.as_slice() {
        b"now" => Ok(ClientTime { seconds: 1_000, micros: Some(3) }),
        b"late" => Ok(ClientTime { seconds: 10, micros: None }),
        _ => Err(Error::Rng),
    }
}

fn unseen(client: &String, server: &String, time: u32, micros: i32, blob: &Vec<u8>) -> bool {
    assert_eq!(client, "user@KERBER.TEST");
    assert_eq!(server, "krbtgt/KERBER.TEST@KERBER.TEST");
    assert_eq!((time, micros, blob.as_slice()), (1_000, 3, &b"now"[..]));
    false
}

fn seal_time(k: &EncryptionKey, usage: u32, t: &ClientTime) -> Result<Vec<u8>, Error> {
    let long = combine(&armor(), &reply_key(), "kdcchallengearmor", "challengelongterm")?;
    assert_eq!((k, usage), (&long, 55));
    assert_eq!(*t, ClientTime { seconds: 1_000, micros: None });
    Ok(b"sealed".to_vec())
}

fn encode_sealed(x: &EncryptedData) -> Result<Vec<u8>, Error> {
    assert_eq!((x.etype, x.kvno, x.cipher.as_slice()), (18, None, &b"sealed"[..]));
    Ok(b"answer".to_vec())
}

/// Two keys put together in a way that tells them and the two words apart.
fn combine(a: &EncryptionKey, b: &EncryptionKey, p: &str, q: &str) -> Result<EncryptionKey, Error> {
    let mut v = a.keyvalue.clone();
    v.extend_from_slice(&b.keyvalue);
    v.extend_from_slice(p.as_bytes());
    v.extend_from_slice(q.as_bytes());
    Ok(EncryptionKey { keytype: b.keytype, keyvalue: v })
}

/// Answers an AS request: the session key of the ticket is that of the reply.
fn reply_as(i: AsIssue, b: &KdcReqBody, fast: Option<&FastFacts>) -> Result<IssuedAs, Error> {
    let (in_ticket, in_reply) = (RefCell::new(None), RefCell::new(None));
    let strengthening = drawn(18).unwrap();
    let under = if fast.is_some() {
        combine(&strengthening, &reply_key(), "strengthenkey", "replykey").unwrap()
    } else {
        reply_key()
    };
    let left = i.pre.extra_padata.clone();
    let described = left.iter().cloned().chain([pa(19, b"info2")]).collect::<Vec<PaData>>();
    let raw = b"request".to_vec();
    let out = issue_as_reply(
        &policy(),
        REALM,
        b,
        i,
        fast,
        &[],
        &raw,
        Vec::new(),
        &|v: Vec<AuthDatum>,
          _: &Vec<String>,
          k: &EncryptionKey,
          krbtgt: &Principal,
          g: &EncryptionKey,
          _: &EncTicketPart| {
            assert_eq!((k, g), (&key("krbtgt"), &key("krbtgt")));
            assert_eq!(krbtgt.name, name(&["krbtgt", REALM]));
            Ok(v)
        },
        &|pac: &Vec<u8>| Ok(vec![datum(1, pac)]),
        &|server: &EncryptionKey, kdc: &EncryptionKey, _: &EncTicketPart, _: bool| {
            assert_eq!((server, kdc), (&key("krbtgt"), &key("krbtgt")));
            Ok(b"pac".to_vec())
        },
        &|k: &EncryptionKey, usage: u32, p: &EncTicketPart| {
            assert_eq!((k, usage), (&key("krbtgt"), 2));
            *in_ticket.borrow_mut() = Some(p.key.clone());
            Ok(b"ticket".to_vec())
        },
        &drawn,
        &combine,
        &|_: i32, _: &Vec<u8>| Some(b"info".to_vec()),
        &|etype: i32, salt: &Vec<u8>| {
            assert_eq!((etype, salt.as_slice()), (18, &b"salt"[..]));
            Some(b"info2".to_vec())
        },
        &|k: &EncryptionKey, t: &Ticket, _: &PrincipalName, realm: &String| {
            assert_eq!(*k, armor());
            assert_eq!((t.enc_part.cipher.as_slice(), realm.as_str()), (&b"ticket"[..], REALM));
            Ok(b"finished".to_vec())
        },
        &|a: &EncryptionKey,
          l: &Vec<PaData>,
          k: &Option<EncryptionKey>,
          nonce: u32,
          finished: &Vec<u8>| {
            assert_eq!((a, l), (&armor(), &described));
            assert_eq!((k, nonce), (&Some(strengthening.clone()), 6));
            assert_eq!(finished, b"finished");
            Ok(pa(136, b"layer"))
        },
        &|k: &EncryptionKey, raw: &Vec<u8>| {
            assert_eq!((k, raw.as_slice()), (&under, &b"request"[..]));
            Ok(vec![pa(149, b"proof")])
        },
        &|_: &Vec<u8>| None,
        &|k: &EncryptionKey, usage: u32, p: &EncKdcRepPart| {
            assert_eq!((k, usage), (&under, 3));
            *in_reply.borrow_mut() = Some(p.key.clone());
            Ok(b"part".to_vec())
        },
    )?;
    assert_eq!(in_ticket.into_inner(), Some(out.session_key.clone()));
    assert_eq!(in_reply.into_inner(), Some(out.session_key.clone()));
    assert_eq!((out.rep.pvno, out.rep.msg_type), (5, 11));
    assert_eq!(out.rep.ticket.enc_part.cipher, b"ticket");
    assert_eq!(out.rep.enc_part.cipher, b"part");
    assert_eq!(out.as_rep_key, under);
    Ok(out)
}

/// Answers a TGS request: the session key of the ticket is that of the reply.
fn reply_tgs(store: &MemoryStore, i: &TgsIssue, h: &HeaderTgt) -> Result<IssuedTgs, Error> {
    let (in_ticket, in_reply) = (RefCell::new(None), RefCell::new(None));
    let signed = RefCell::new(Vec::new());
    let signer = TgsSigner {
        store,
        issue: i,
        start: None,
        encode: &|_: &EncTicketPart| Ok(b"blank".to_vec()),
        identify: &|_: &Vec<u8>| Err("no logon information".to_string()),
        fresh: &|_: &PacSubject, _: u32, _: &str| FreshPac {
            logon: Vec::new(),
            client_info: Vec::new(),
            upn_dns: Vec::new(),
            attributes: Vec::new(),
            requester_sid: Vec::new(),
        },
        form: &|etype: i32| {
            assert_eq!(etype, 18);
            SignatureForm { cksumtype: 16, len: 1 }
        },
        checksum: &|k: &EncryptionKey, usage: u32, _: &SignInput| {
            assert_eq!(usage, 17);
            signed.borrow_mut().push(k.keyvalue[0]);
            Ok(vec![1])
        },
        write: &|_: &Vec<PacBuffer>| b"pac".to_vec(),
    };
    let raw = b"request".to_vec();
    let out = issue_tgs_reply(
        i,
        h,
        REALM,
        None,
        &[],
        &raw,
        Vec::new(),
        &|v: Vec<AuthDatum>,
          _: &Vec<String>,
          k: &EncryptionKey,
          krbtgt: &Principal,
          g: &EncryptionKey,
          _: &EncTicketPart| {
            assert_eq!((k, g), (&key("host"), &key("krbtgt")));
            assert_eq!(krbtgt.name, name(&["krbtgt", REALM]));
            Ok(v)
        },
        &|pac: &Vec<u8>| Ok(vec![datum(1, pac)]),
        &signer,
        &|k: &EncryptionKey, usage: u32, p: &EncTicketPart| {
            assert_eq!((k, usage), (&key("host"), 2));
            *in_ticket.borrow_mut() = Some(p.key.clone());
            Ok(b"ticket".to_vec())
        },
        &|x: &X509User, session: &EncryptionKey, sub: &Option<EncryptionKey>| {
            assert_eq!((session, sub), (&h.enc_tkt.key, &h.authenticator.subkey));
            Ok((pa(130, &x.checksum), None))
        },
        &drawn,
        &combine,
        &|_: &EncryptionKey, _: &Vec<u8>| Ok(Vec::new()),
        &|_: &Vec<u8>| None,
        &|_: &EncryptionKey, _: &Ticket, _: &PrincipalName, _: &String| Err(Error::Rng),
        &|_: &EncryptionKey,
          _: &Vec<PaData>,
          _: &Option<EncryptionKey>,
          _: u32,
          _: &Vec<u8>| Err(Error::Rng),
        &|k: &EncryptionKey, usage: u32, p: &EncKdcRepPart| {
            assert_eq!((k, usage), (&subkey(), 9));
            *in_reply.borrow_mut() = Some(p.key.clone());
            Ok(b"part".to_vec())
        },
    )?;
    assert_eq!(in_ticket.into_inner(), Some(out.session_key.clone()));
    assert_eq!(in_reply.into_inner(), Some(out.session_key.clone()));
    assert_eq!((out.rep.pvno, out.rep.msg_type), (5, 13));
    if i.plan.include_pac {
        assert_eq!(*signed.borrow(), [8, 8, 10, 8], "the server's key signs its own");
    }
    Ok(out)
}

/// The attempt and the refusal of an AS request under a policy, where it is
/// refused; `good` says that its timestamp opens.
fn issue_as(
    store: &MemoryStore,
    cname: &[&str],
    good: Option<bool>,
    verdict: Result<(), Error>,
    now: u32,
) -> Option<Error> {
    let b = body(Some(cname), &["krbtgt", REALM]);
    let verdict = RefCell::new(Some(verdict));
    let (_, r) = issue_as_body(
        store,
        &b,
        None,
        &[],
        None,
        vec![0x30],
        "",
        now,
        |_: &AsLookup| {
            preauthenticated(match good {
                None => Ok(None),
                Some(true) => Ok(Some(PreauthAction::EncTsOk)),
                Some(false) => Err(proto(PREAUTH_FAILED, Status::PreauthFailed)),
            })
        },
        no_data,
        written,
        outer_form,
        combine,
        open_time,
        unseen,
        seal_time,
        encode_sealed,
        |_: &AsLookup, _: &AsPreauth| IssueOutcome {
            pac_request: None,
            verdict: verdict.borrow_mut().take().unwrap(),
            authdata: Ok(()),
        },
        drawn,
        not_exchanged,
        no_type,
        no_key,
    );
    match r {
        Ok(i) => {
            assert_eq!(i.lookup.client.id(), "user@KERBER.TEST");
            assert!(i.plan.times.flags.bit(INITIAL));
            assert_eq!(i.plan.times.flags.bit(PRE_AUTHENT), i.pre.authenticated);
            assert_eq!((i.plan.times.endtime, i.plan.nonce), (5_000, 41));
            assert_eq!(Ok(&i.plan.session), drawn(18).as_ref());
            let out = reply_as(i, &b, None).unwrap();
            assert_eq!(out.rep.padata, Some(vec![pa(19, b"info2")]));
            assert_eq!(out.as_rep_key, reply_key());
            None
        }
        Err(e) => Some(e),
    }
}

/// The refusal of a TGS request under a policy, where it is refused.
fn issue_tgs(
    store: &MemoryStore,
    sname: &[&str],
    replayed: bool,
    key: Result<(), Error>,
    verdict: Result<(), Error>,
) -> Option<Error> {
    issue_tgs_with(store, sname, replayed, key, verdict, None)
}

/// The same, for a ticket whose PAC is for a client of this name.
fn issue_tgs_with(
    store: &MemoryStore,
    sname: &[&str],
    replayed: bool,
    made: Result<(), Error>,
    verdict: Result<(), Error>,
    pac: Option<&str>,
) -> Option<Error> {
    let b = body(None, sname);
    let tkt = EncTicketPart {
        flags: Flags::none().with_bit(FORWARDABLE, true),
        key: EncryptionKey { keytype: 18, keyvalue: vec![1; 32] },
        crealm: REALM.to_string(),
        cname: name(&["user"]),
        transited: TransitedEncoding { tr_type: 1, contents: Vec::new() },
        authtime: 1_000,
        starttime: None,
        endtime: 30_000,
        renew_till: None,
        caddr: None,
        authorization_data: None,
    };
    let tgt = PrincipalName::krbtgt(REALM);
    let header_server = princ(&["krbtgt", REALM]);
    let h = HeaderTgt {
        enc_tkt: tkt,
        tgt_key: 0,
        authenticator: Authenticator {
            cname: name(&["user"]),
            crealm: REALM.to_string(),
            ctime: 2_000,
            cusec: 0,
            cksum: None,
            subkey: Some(subkey()),
            authorization_data: None,
        },
        header_server: &header_server,
    };
    let sealed = b"sealed".to_vec();
    let header = TgsHeader { sname: &tgt, realm: REALM, opened: &h, sealed: &sealed };
    let (made, verdict) = (RefCell::new(Some(made)), RefCell::new(Some(verdict)));
    let acting: Vec<PaData> =
        if pac == Some("acting") { vec![pa(PA_FOR_USER, b"bob")] } else { Vec::new() };
    let users = S4uReader {
        types: &[CksumType { cksumtype: 16, keyed: true, size: 12 }],
        decode_x509: &|_: &Vec<u8>| None,
        decode_user: &|v: &Vec<u8>| {
            assert_eq!(v, b"bob");
            Some(ForUser {
                user: name(&["bob"]),
                realm: REALM.to_string(),
                signed: b"signed".to_vec(),
                cksumtype: 16,
                checksum: vec![6; 12],
            })
        },
        usable: &|_: &EncryptionKey| Ok(()),
        encode: &|_: &S4uUserId| Err(Error::Rng),
        check: &|k: &EncryptionKey, usage: u32, over: &Vec<u8>, ty: i32, mac: &Vec<u8>| {
            assert_eq!((k, usage, over.as_slice()), (&h.enc_tkt.key, 17, &b"signed"[..]));
            assert_eq!((ty, mac.as_slice()), (16, &[6; 12][..]));
            CksumOutcome::Good
        },
        fetch: &|n: &PrincipalName| {
            assert_eq!(*n, name(&["bob"]));
            Ok(Some(princ(&["bob"])))
        },
    };
    let r = issue_tgs_body(
        store,
        &b,
        header,
        false,
        &HostFacts { numeric: false, realm: None },
        &[],
        &acting,
        None,
        2_000,
        |client: &String, server: &String, time: u32, micros: u32, b: &Vec<u8>| {
            assert_eq!(client, "user@KERBER.TEST");
            assert_eq!(server, "krbtgt/KERBER.TEST@KERBER.TEST");
            assert_eq!((time, micros, b.as_slice()), (2_000, 0, &b"sealed"[..]));
            replayed
        },
        |part: &EncTicketPart, k: &EncryptionKey, p: &Principal, local: Option<&Principal>| {
            assert_eq!((part, k), (&h.enc_tkt, &key("krbtgt")));
            assert_eq!(p.name, header_server.name);
            assert_eq!(local.is_some(), store.fetch_krbtgt().unwrap().is_some());
            if pac == Some("forged") {
                Err(proto(MODIFIED, Status::HeaderPac))
            } else {
                Ok(())
            }
        },
        &users,
        |q: &TgsRequest, local: Option<&Principal>| {
            assert_eq!(q.server.name, name(sname));
            assert_eq!(local.is_some(), store.fetch_krbtgt().unwrap().is_some());
            (
                TgsPresented {
                    stkt: Ok(None),
                    header_pac: pac.map(|n| {
                        Ok(PacFacts {
                            client_info: Some(ClientInfo {
                                authtime: 1_000,
                                name: n.to_string(),
                            }),
                            delegation: None,
                        })
                    }),
                    logon: None,
                    header_client: "user".to_string(),
                    evidence_client: String::new(),
                    target: None,
                },
                TgsFacts {
                    pac_options: None,
                    session_enctypes: None,
                    u2u_key: Ok(()),
                },
            )
        },
        |_: &Vec<u8>| Err("no logon information".to_string()),
        |v: &Vec<u8>, _: &LogonSids| v.clone(),
        |_: &TransitedEncoding, _: &str, _: &str, _: &str| Err(()),
        |_: &TransitedEncoding, from: &str, to: &str| {
            assert_eq!((from, to), (REALM, REALM));
            true
        },
        |part: &EncTicketPart, p: &Principal, k: &EncryptionKey| {
            assert_eq!((part, k), (&h.enc_tkt, &key("krbtgt")));
            assert_eq!(p.name, header_server.name);
            Ok(Vec::new())
        },
        |etype: i32| {
            made.borrow_mut()
                .take()
                .unwrap()
                .map(|()| EncryptionKey { keytype: etype, keyvalue: vec![9; 32] })
        },
        |_: &TgsSubject, _: &TgsChecked| TgsOutcome {
            verdict: verdict.borrow_mut().take().unwrap(),
            authdata: Ok(()),
        },
        no_type,
        no_key,
    );
    match r {
        Ok(mut i) => {
            assert_eq!(i.subject.cname, name(&["user"]));
            assert_eq!((i.session.keytype, i.times.endtime, i.plan.nonce), (18, 5_000, 41));
            assert_eq!(i.plan.sname, name(sname));
            assert_eq!(i.plan.copies_pac, pac.is_some());
            assert_eq!((i.requested, &i.server.name), (&name(sname), &name(sname)));
            assert_eq!((&i.service_key, &i.kdc_key), (&key("host"), &key("krbtgt")));
            let out = reply_tgs(store, &i, &h).unwrap();
            assert_eq!((out.rep.padata, out.rep.enc_part.etype), (None, 18));
            i.subject.s4u_x509 = Some(x509_user());
            let out = reply_tgs(store, &i, &h).unwrap();
            assert_eq!(out.rep.padata, Some(vec![pa(130, b"sum")]));
            None
        }
        Err(e) => Some(e),
    }
}

fn x509_user() -> X509User {
    X509User {
        user_id: S4uUserId {
            nonce: 41,
            user: Some(name(&["bob"])),
            realm: REALM.to_string(),
            subject_cert: None,
            use_reply_key_usage: true,
            other_options: None,
        },
        cksumtype: 16,
        checksum: b"sum".to_vec(),
    }
}

#[test]
fn pacs_of_presented_tickets_go_on() {
    let s = store(user());
    assert_eq!(issue_tgs_with(&s, &host(), false, Ok(()), Ok(()), Some("user")), None);
    assert_eq!(
        issue_tgs_with(&s, &host(), false, Ok(()), Ok(()), Some("other")),
        Some(proto(BADOPTION, Status::HeaderPac))
    );
    assert_eq!(
        issue_tgs_with(&s, &host(), false, Ok(()), Ok(()), Some("forged")),
        Some(proto(MODIFIED, Status::HeaderPac))
    );
    assert_eq!(
        issue_tgs_with(&s, &host(), true, Ok(()), Ok(()), Some("forged")),
        Some(proto(REPEAT, Status::ProcessTgs)),
        "the replay comes first"
    );
    assert_eq!(
        issue_tgs_with(&s, &host(), false, Ok(()), Ok(()), Some("acting")),
        Some(proto(BADMATCH, Status::InvalidS4u2selfRequestServerMismatch)),
        "the user is not one that the client may act for"
    );
}

fn host() -> [&'static str; 2] {
    ["host", "a.kerber.test"]
}

#[test]
fn issue_as_hits_memory_store() {
    let s = store(user());
    assert_eq!(issue_as(&s, &["user"], Some(true), Ok(()), 1_000), None);
    assert_eq!(
        issue_as(&s, &["nosuch"], Some(true), Ok(()), 1_000),
        Some(proto(C_PRINCIPAL_UNKNOWN, Status::ClientNotFound))
    );
}

#[test]
fn deny_policy_blocks_issue_as_and_issue_tgs() {
    let s = store(user());
    let denied = DenyPolicy.check_as(&user(), &[]);
    match issue_as(&s, &["user"], Some(true), denied, 1_000) {
        Some(Error::Protocol { code, .. }) if code == POLICY => {}
        other => panic!("AS deny: {other:?}"),
    }
    let allowed = DefaultPolicy.check_as(&user(), &[]);
    assert_eq!(issue_as(&s, &["user"], Some(true), allowed, 1_000), None);
    let denied = DenyPolicy.check_tgs(&name(&host()), &[]);
    match issue_tgs(&s, &host(), false, Ok(()), denied) {
        Some(Error::Protocol { code, .. }) if code == POLICY => {}
        other => panic!("TGS deny: {other:?}"),
    }
    let allowed = DefaultPolicy.check_tgs(&name(&host()), &[]);
    assert_eq!(issue_tgs(&s, &host(), false, Ok(()), allowed), None);
}

#[test]
fn demo_preauth_and_policy_are_consulted() {
    let mut demo = DemoPreauth::new();
    let mut pol = DemoPolicy::default();
    let s = store(user());
    demo.advertise();
    assert_eq!(demo.process_as(), Ok(None));
    match issue_as(&s, &["user"], None, Ok(()), 1_000) {
        Some(Error::PreauthRequired { .. }) => {}
        other => panic!("{other:?}"),
    }
    assert!(demo.ads >= 1 && demo.procs >= 1);
    let verdict = pol.check_as(&user(), &[]);
    assert_eq!(issue_as(&s, &["user"], Some(true), verdict, 1_000), None);
    assert!(pol.as_checks >= 1, "demo policy check_as must run");
}

#[test]
fn swapped_policy_does_not_drop_as_lockout() {
    let mut pol = DemoPolicy::default();
    let mut u = user();
    u.pw_policy = Some("lock".to_string());
    let mut s = store(u.clone());
    s.put_policy(NamedPolicy {
        name: "lock".to_string(),
        max_fail: 1,
        pw_failcnt_interval: 0,
        pw_lockout_duration: 0,
    });
    let verdict = pol.check_as(&u, &[]);
    assert!(issue_as(&s, &["user"], Some(false), verdict, 10).is_some());
    s.record_as_outcome(&u.name, false, 10);
    let verdict = pol.check_as(&u, &[]);
    match issue_as(&s, &["user"], Some(false), verdict, 11) {
        Some(Error::Protocol { code, .. }) if code == CLIENT_REVOKED => {}
        other => panic!("lockout must stay inline: {other:?}"),
    }
}

#[test]
fn tgs_requests_are_refused_in_order() {
    let s = store(user());
    assert!(issue_tgs(&s, &host(), true, Ok(()), Ok(())).is_some(), "replayed");
    assert!(matches!(
        issue_tgs(&s, &["host", "nosuch"], false, Ok(()), Ok(())),
        Some(Error::Protocol { code: S_PRINCIPAL_UNKNOWN, .. })
    ));
    assert_eq!(issue_tgs(&s, &host(), false, Err(Error::Rng), Ok(())), Some(Error::Rng));
    let lone = MemoryStore::from_principals(
        REALM.to_string(),
        policy(),
        vec![user(), princ(&host())],
    );
    assert_eq!(
        issue_tgs(&lone, &host(), false, Ok(()), Ok(())),
        Some(proto(GENERIC, Status::GetLocalTgt))
    );
}

#[test]
fn replies_inside_a_layer_are_strengthened() {
    let s = store(user());
    let b = body(Some(&["user"]), &["krbtgt", REALM]);
    let key = armor();
    let fast = FastFacts { options: &[], nonce: 6, padata: &[], armor_key: &key };
    let (_, r) = issue_as_body(
        &s,
        &b,
        Some(&fast),
        &[],
        None,
        vec![0x30],
        "",
        1_000,
        |_: &AsLookup| preauthenticated(Ok(Some(PreauthAction::EncTsOk))),
        no_data,
        written,
        outer_form,
        combine,
        open_time,
        unseen,
        seal_time,
        encode_sealed,
        settled,
        drawn,
        not_exchanged,
        no_type,
        no_key,
    );
    let out = reply_as(r.unwrap(), &b, Some(&fast)).unwrap();
    assert_eq!(out.rep.padata, Some(vec![pa(136, b"layer")]));
}

fn settled(_: &AsLookup, _: &AsPreauth) -> IssueOutcome {
    IssueOutcome { pac_request: Some(false), verdict: Ok(()), authdata: Ok(()) }
}

#[test]
fn challenges_are_judged_under_the_armor_and_the_clients_key() {
    let s = store(user());
    let b = body(Some(&["user"]), &["krbtgt", REALM]);
    let key = armor();
    let run = |blob: &[u8], seen: bool| {
        let padata = [pa(PA_ENCRYPTED_CHALLENGE, blob)];
        let fast = FastFacts { options: &[], nonce: 6, padata: &padata, armor_key: &key };
        let (attempt, r) = issue_as_body(
            &s,
            &b,
            Some(&fast),
            &[],
            None,
            vec![0x30],
            "",
            1_000,
            |_: &AsLookup| preauthenticated(Ok(None)),
            no_data,
            written,
            outer_form,
            combine,
            open_time,
            |c: &String, v: &String, t: u32, u: i32, o: &Vec<u8>| unseen(c, v, t, u, o) || seen,
            seal_time,
            encode_sealed,
            settled,
            drawn,
            not_exchanged,
            no_type,
            no_key,
        );
        let r = r.map(|i| {
            assert!(i.pre.authenticated && !i.pre.reply_key_replaced);
            assert_eq!(i.pre.as_rep_key, reply_key());
            let out = reply_as(i, &b, Some(&fast)).unwrap();
            assert_eq!(out.rep.padata, Some(vec![pa(136, b"layer")]));
        });
        (attempt, r)
    };
    assert_eq!(run(b"now", false), (Some(true), Ok(())));
    let refused = |code: i32| (Some(false), Err(proto(code, Status::PreauthFailed)));
    assert_eq!(run(b"now", true), refused(REPEAT));
    assert_eq!(run(b"late", false), refused(SKEW));
    assert_eq!(run(b"bad", false), refused(PREAUTH_FAILED));
    assert!(matches!(run(b"", false), (None, Err(Error::PreauthRequired { .. }))));
}

#[test]
fn modules_give_their_own_reply_key() {
    let s = store(user());
    let b = body(Some(&["user"]), &["krbtgt", REALM]);
    let own = || EncryptionKey { keytype: 18, keyvalue: vec![0x44; 32] };
    let run = |action: PreauthAction| {
        let action = RefCell::new(Some(action));
        let (_, r) = issue_as_body(
            &s,
            &b,
            None,
            &[],
            None,
            vec![0x30],
            "",
            1_000,
            |_: &AsLookup| preauthenticated(Ok(action.borrow_mut().take())),
            no_data,
            written,
            outer_form,
            combine,
            open_time,
            unseen,
            seal_time,
            encode_sealed,
            settled,
            drawn,
            not_exchanged,
            no_type,
            no_key,
        );
        let i = r.unwrap();
        assert!(!i.plan.describes_key);
        (i.pre.as_rep_key, i.pre.extra_padata)
    };
    assert_eq!(run(PreauthAction::SpakeDone(own())), (own(), Vec::new()));
    let pkinit = PreauthAction::Pkinit { key: own(), pa: pa(17, b"rep"), signed: false };
    assert_eq!(run(pkinit), (own(), vec![pa(17, b"rep")]));
}

#[test]
fn anonymous_session_keys_are_combined() {
    let drawn = || EncryptionKey { keytype: 18, keyvalue: vec![9; 32] };
    let reply_key = || EncryptionKey { keytype: 18, keyvalue: vec![0x55; 32] };
    let exchange = |k: &EncryptionKey, usage: u32, d: &EncryptionKey| {
        assert_eq!((k, usage, d), (&reply_key(), 44, &drawn()));
        Ok(b"kx".to_vec())
    };
    let plain = as_session(Ok(drawn()), false, &reply_key(), &exchange, &combine);
    assert_eq!(plain, Ok(AsSession { key: drawn(), kx: None }));
    let anonymous = as_session(Ok(drawn()), true, &reply_key(), &exchange, &combine).unwrap();
    assert_eq!(Ok(anonymous.key), combine(&drawn(), &reply_key(), "PKINIT", "KEYEXCHANGE"));
    assert_eq!(anonymous.kx, Some(pa(147, b"kx")));
    let failing = as_session(Err(Error::Rng), true, &reply_key(), &exchange, &combine);
    assert_eq!(failing, Err(Error::Rng));
}

fn terms(
    krbtgt: &Principal,
    no_auth_data: bool,
    include_pac: bool,
    extra: Vec<AuthDatum>,
) -> MintTerms<'_> {
    MintTerms {
        service_key: key("host"),
        kdc_key: subkey(),
        krbtgt,
        krbtgt_key: key("krbtgt"),
        indicators: vec!["strong".to_string()],
        session: EncryptionKey { keytype: 18, keyvalue: vec![9; 32] },
        srealm: REALM.to_string(),
        sname: name(&host()),
        crealm: REALM.to_string(),
        cname: name(&["user"]),
        times: TicketTimes {
            authtime: 1_000,
            starttime: 2_000,
            endtime: 30_000,
            renew_till: None,
            flags: Flags::none(),
        },
        transited: TransitedEncoding { tr_type: 1, contents: Vec::new() },
        caddr: None,
        extra,
        service_etype: 18,
        kvno: 0,
        no_auth_data,
        include_pac,
    }
}

fn datum(ty: i32, b: &[u8]) -> AuthDatum {
    AuthDatum { ad_type: ty, ad_data: b.to_vec() }
}

/// The authorization data that a ticket ends up with, those that its PAC was
/// signed over, and whether it was made.
fn mint(t: MintTerms) -> (Option<Vec<AuthDatum>>, Option<Vec<AuthDatum>>) {
    let (sealed, signed) = (RefCell::new(None), RefCell::new(None));
    let k = mint_ticket(
        t,
        &|mut v: Vec<AuthDatum>,
          indicators: &Vec<String>,
          k: &EncryptionKey,
          krbtgt: &Principal,
          g: &EncryptionKey,
          p: &EncTicketPart| {
            assert!(p.authorization_data.is_none());
            assert_eq!(indicators, &["strong"]);
            assert_eq!((k, g), (&key("host"), &key("krbtgt")));
            assert_eq!(krbtgt.name, name(&["krbtgt", REALM]));
            v.push(datum(97, b"indicators"));
            Ok(v)
        },
        &|pac: &Vec<u8>| Ok(vec![datum(1, pac)]),
        &|server: &EncryptionKey, kdc: &EncryptionKey, p: &EncTicketPart, service: bool| {
            assert!(service);
            assert_eq!((server, kdc), (&key("host"), &subkey()));
            *signed.borrow_mut() = p.authorization_data.clone();
            Ok(b"pac".to_vec())
        },
        &|k: &EncryptionKey, usage: u32, p: &EncTicketPart| {
            assert_eq!((k, usage), (&key("host"), 2));
            assert_eq!((p.authtime, p.start_time(), p.endtime), (1_000, 2_000, 30_000));
            *sealed.borrow_mut() = p.authorization_data.clone();
            Ok(vec![1, 2])
        },
    )
    .unwrap();
    assert_eq!((k.tkt_vno, k.enc_part.etype, k.enc_part.kvno), (5, 18, None));
    assert_eq!(k.enc_part.cipher, [1, 2]);
    (sealed.into_inner(), signed.into_inner())
}

#[test]
fn pacs_stand_in_front_of_other_authdata() {
    let tgt = princ(&["krbtgt", REALM]);
    let (sealed, signed) = mint(terms(&tgt, false, true, vec![datum(5, b"x")]));
    let rest = [datum(5, b"x"), datum(97, b"indicators")];
    let with = |first: AuthDatum| {
        let mut v = vec![first];
        v.extend_from_slice(&rest);
        Some(v)
    };
    assert_eq!(sealed, with(datum(1, b"pac")));
    assert_eq!(signed, with(datum(1, &[0])));
    let (sealed, signed) = mint(terms(&tgt, true, false, vec![datum(5, b"x")]));
    assert_eq!((sealed, signed), (Some(vec![datum(5, b"x")]), None));
    assert_eq!(mint(terms(&tgt, true, false, Vec::new())), (None, None));
}

#[test]
fn minting_stops_at_the_first_failure() {
    let tgt = princ(&["krbtgt", REALM]);
    let fail = |at: u32| {
        mint_ticket(
            terms(&tgt, false, true, Vec::new()),
            &|v: Vec<AuthDatum>,
              _: &Vec<String>,
              _: &EncryptionKey,
              _: &Principal,
              _: &EncryptionKey,
              _: &EncTicketPart| if at == 0 { Err(Error::Rng) } else { Ok(v) },
            &|p: &Vec<u8>| if at == 1 { Err(Error::NotFound) } else { Ok(vec![datum(1, p)]) },
            &|_: &EncryptionKey, _: &EncryptionKey, _: &EncTicketPart, _: bool| {
                if at == 2 { Err(Error::AclDenied) } else { Ok(vec![3]) }
            },
            &|_: &EncryptionKey, _: u32, _: &EncTicketPart| {
                if at == 3 { Err(Error::AlreadyExists) } else { Ok(vec![4]) }
            },
        )
        .err()
    };
    assert_eq!(fail(0), Some(Error::Rng));
    assert_eq!(fail(1), Some(Error::NotFound));
    assert_eq!(fail(2), Some(Error::AclDenied));
    assert_eq!(fail(3), Some(Error::AlreadyExists));
    assert_eq!(fail(4), None);
}

fn encode(k: &KrbError) -> Vec<u8> {
    let mut v = vec![0x7e, k.error_code as u8];
    if let Some(d) = &k.e_data {
        v.extend_from_slice(d);
    }
    v
}

#[test]
fn failures_become_krb_errors() {
    let b = body(Some(&["user"]), &["krbtgt", REALM]);
    let g = ErrorGround { store_realm: REALM, stand_in: "INVALID", body: &b, hide_client: false };
    let cookie = |mut d: Vec<u8>| {
        d.push(0xcc);
        d
    };
    let answer = |e: Result<Vec<u8>, Error>| answer_as(&g, e, cookie, encode);
    assert_eq!(answer(Ok(vec![0x6b])), (vec![0x6b], None));
    assert_eq!(
        answer(Err(Error::PreauthRequired { e_data: vec![1] })),
        (vec![0x7e, PREAUTH_REQUIRED as u8, 1, 0xcc], None)
    );
    let discarded =
        Error::Protocol { code: DISCARD, text: None, e_data: None, detail: Some("d".to_string()) };
    assert_eq!(answer(Err(discarded)), (Vec::new(), Some("d".to_string())));
    assert_eq!(
        answer(Err(Error::Crypto("mac".to_string()))),
        (vec![0x7e, PREAUTH_FAILED as u8], Some("mac".to_string()))
    );
    assert_eq!(
        answer_tgs(&g, Err(Error::Crypto("mac".to_string())), encode),
        (vec![0x7e, BAD_INTEGRITY as u8], Some("mac".to_string()))
    );
    assert_eq!(answer_tgs(&g, Ok(vec![0x6d]), encode), (vec![0x6d], None));
}

fn layer() -> FastOk {
    FastOk {
        armor_key: armor(),
        options: vec![false, true],
        nonce: 77,
        padata: vec![pa(9, &[1])],
        body: body(Some(&["inner"]), &["host", "a.kerber.test"]),
    }
}

/// A list of padata: the type and the one octet of each.
fn read_list(d: &Vec<u8>) -> Vec<PaData> {
    d.chunks(2).map(|c| pa(i32::from(c[0]), &c[1..])).collect()
}

fn write_list(l: &Vec<PaData>) -> Result<Vec<u8>, Error> {
    let mut out = Vec::new();
    for p in l {
        out.push(p.padata_type as u8);
        out.extend_from_slice(&p.padata_value);
    }
    Ok(out)
}

/// The octets of an error message: its code and its client.
fn write_error(k: &KrbError) -> Vec<u8> {
    assert_eq!((&k.sname, &k.e_data), (&name(&["host", "a.kerber.test"]), &None));
    let cname = k.cname.as_ref().map_or(String::new(), |n| n.components_joined());
    [&[k.error_code as u8][..], cname.as_bytes()].concat()
}

#[test]
fn failures_leave_a_fast_layer_wrapped() {
    let form = FailureForm {
        store_realm: REALM,
        stand_in: "STAND-IN",
        methods: &read_list,
        read: &|d: &Vec<u8>| if d.is_empty() { Vec::new() } else { vec![pa(2, d)] },
        cookie: &|n: &Option<PrincipalName>, mut l: Vec<PaData>| {
            assert_eq!(*n, Some(name(&["inner"])));
            l.push(pa(133, b"c"));
            l
        },
        encode: &write_error,
        enclose: &|k: &EncryptionKey, l: &Vec<PaData>, nonce: u32| {
            assert_eq!((k, nonce), (&armor(), 77));
            write_list(l).map(|v| pa(136, &v))
        },
        list: &write_list,
    };
    let outer = body(Some(&["outer"]), &["krbtgt", REALM]);
    let inside = layer();
    let issue = |e: Result<u32, Error>, msg_type: i32, fast: Result<bool, Error>| {
        let fast = fast.map(|layer| if layer { Some(&inside) } else { None });
        let layered = matches!(fast, Ok(Some(_)));
        let e = RefCell::new(Some(e));
        issue_as_from(&form, msg_type, &outer, fast, |b: &KdcReqBody, f: Option<&FastOk>| {
            assert_eq!(f.is_some(), layered);
            assert_eq!(b, if layered { &inside.body } else { &outer });
            e.borrow_mut().take().unwrap()
        })
    };
    assert_eq!(issue(Ok(3), MSG_AS_REQ, Ok(true)), Ok(3));
    let e = || Err(proto(POLICY, Status::Kdcpolicy));
    assert_eq!(issue(e(), MSG_AS_REQ, Ok(false)), Err(proto(POLICY, Status::Kdcpolicy)));
    let wrapped = |code: i32, beside: &[u8]| {
        [&[136u8][..], beside, &[133, b'c', 137, code as u8], b"inner"].concat()
    };
    assert_eq!(
        issue(e(), MSG_AS_REQ, Ok(true)),
        Err(Error::Protocol {
            code: POLICY,
            text: Some(Status::Kdcpolicy),
            e_data: Some(wrapped(POLICY, &[])),
            detail: None
        })
    );
    assert_eq!(
        issue(Err(Error::PreauthRequired { e_data: vec![2, 0, 19, 5] }), MSG_AS_REQ, Ok(true)),
        Err(Error::PreauthRequired { e_data: wrapped(PREAUTH_REQUIRED, &[2, 0, 19, 5]) })
    );
    assert_eq!(
        issue(Ok(3), MSG_TGS_REQ, Ok(true)),
        Err(proto(GENERIC, Status::ValidateMessageType))
    );
    assert_eq!(issue(Ok(3), MSG_AS_REQ, Err(Error::Rng)), Err(Error::Rng));
    let tgs = |padata: &[PaData], msg_type: i32, fast: Result<bool, Error>, e: Result<u32, Error>| {
        let (fast, e) = (RefCell::new(Some(fast)), RefCell::new(Some(e)));
        issue_tgs_from(
            &form,
            msg_type,
            padata,
            &outer,
            |v: &Vec<u8>| if v == b"header" { Ok(41) } else { Err(Error::Rng) },
            |h: &u32| {
                assert_eq!(*h, 41);
                fast.borrow_mut().take().unwrap().map(|l| if l { Some(layer()) } else { None })
            },
            |_: &u32, b: &KdcReqBody, f: Option<&FastOk>| {
                assert_eq!(b, if f.is_some() { &inside.body } else { &outer });
                e.borrow_mut().take().unwrap()
            },
        )
    };
    let header = [pa(9, b"x"), pa(1, b"header")];
    assert_eq!(tgs(&header, MSG_TGS_REQ, Ok(true), Ok(5)), Ok(5));
    assert_eq!(
        tgs(&header, MSG_TGS_REQ, Ok(true), e()),
        Err(Error::Protocol {
            code: POLICY,
            text: Some(Status::Kdcpolicy),
            e_data: Some(wrapped(POLICY, &[])),
            detail: None
        })
    );
    assert_eq!(
        tgs(&header, MSG_TGS_REQ, Ok(false), e()),
        Err(proto(POLICY, Status::Kdcpolicy))
    );
    assert_eq!(tgs(&header, MSG_TGS_REQ, Err(Error::NotFound), Ok(5)), Err(Error::NotFound));
    assert_eq!(tgs(&[pa(1, b"other")], MSG_TGS_REQ, Ok(true), Ok(5)), Err(Error::Rng));
    assert_eq!(
        tgs(&header[..1], MSG_TGS_REQ, Ok(true), Ok(5)),
        Err(proto(PADATA_TYPE_NOSUPP, Status::ProcessTgs))
    );
    assert_eq!(
        tgs(&header, MSG_AS_REQ, Ok(true), Ok(5)),
        Err(proto(GENERIC, Status::UnknownReason))
    );
}

#[test]
fn other_messages_are_not_answered() {
    let handle = |raw: &[u8], a: Option<i32>, t: Option<i32>| {
        handle_request(raw, a, t, |d: Dispatch| {
            Ok((vec![if d == Dispatch::As { 1 } else { 2 }], None))
        })
        .unwrap()
        .0
    };
    assert_eq!(handle(&[0x6a, 0], Some(5), None), [1]);
    assert_eq!(handle(&[0x6c, 0], None, Some(5)), [2]);
    assert!(handle(&[0x6a, 0], Some(4), Some(5)).is_empty());
    assert!(handle(&[0x6a, 0], None, None).is_empty());
    assert!(handle(&[0x30, 0], Some(5), Some(5)).is_empty());
    assert!(handle(&[], Some(5), Some(5)).is_empty());
}
