use std::cell::RefCell;

use krb5_kdc::gss::context::{AcceptFacts, ApChecksum, ChannelBindings, DelegatedFacts, GssContext};
use krb5_kdc::gss::deleg::{krb_cred_for_deleg, CredMessage, CredPart, DelegCred};
use krb5_kdc::gss::error::Error;
use krb5_kdc::gss::establish::{InitRequest, VerifiedReq, VerifyError};
use krb5_kdc::gss::mic::CksumVerdict;
use krb5_kdc::gss::negotiate::{spnego_accept, spnego_accept_kt};
use krb5_kdc::gss::oid::{
    gss_unwrap_app, gss_wrap_app, GSS_CHECKSUM_TYPE, GSS_C_DCE, GSS_C_DELEG, GSS_C_MUTUAL,
    GSS_C_PROT_READY,
};
use krb5_kdc::gss::rep::RepPart;
use krb5_kdc::gss::spnego::{spnego_init, TOK_AP_REP, TOK_AP_REQ};
use krb5_kdc::msg::{EncryptedData, EncryptionKey, Ticket};
use krb5_kdc::name::{PrincipalName, NT_PRINCIPAL};

const REALM: &str = "KERBER.TEST";

fn session() -> EncryptionKey {
    EncryptionKey { keytype: 18, keyvalue: (1..33).collect() }
}

fn name(parts: &[&str]) -> PrincipalName {
    PrincipalName {
        name_type: NT_PRINCIPAL,
        name_string: parts.iter().map(|s| s.to_string()).collect(),
    }
}

fn host() -> PrincipalName {
    name(&["host", "testhost.kerber.test"])
}

/// The keys of the acceptor.
fn keytab() -> Vec<EncryptionKey> {
    vec![EncryptionKey { keytype: 18, keyvalue: vec![0x55; 32] }]
}

fn ticket() -> Ticket {
    Ticket {
        tkt_vno: 5,
        realm: REALM.to_string(),
        sname: host(),
        enc_part: EncryptedData { etype: 18, kvno: Some(1), cipher: b"sealed".to_vec() },
    }
}

fn unparse(n: &PrincipalName, realm: &String) -> String {
    format!("{}@{}", n.components_joined(), realm)
}

fn seal_cred(k: &EncryptionKey, usage: u32, p: &CredPart) -> Result<Vec<u8>, Error> {
    Ok(sum(k, usage, format!("{p:?}").as_bytes()))
}

fn encode_cred(m: &CredMessage) -> Result<Vec<u8>, Error> {
    Ok(format!("{m:?}").into_bytes())
}

fn cred() -> DelegCred {
    DelegCred {
        ticket: ticket(),
        session: EncryptionKey { keytype: 20, keyvalue: vec![0x66; 32] },
        crealm: REALM.to_string(),
        cname: name(&["user"]),
        flags: 0x4000_0000,
        authtime: Some(100),
        starttime: None,
        endtime: Some(200),
        renew_till: None,
    }
}

fn sum(key: &EncryptionKey, usage: u32, data: &[u8]) -> Vec<u8> {
    let mut h: u64 = 0xcbf2_9ce4_8422_2325 ^ u64::from(usage);
    for b in key.keyvalue.iter().chain(data.iter()) {
        h = (h ^ u64::from(*b)).wrapping_mul(0x0000_0100_0000_01b3);
    }
    h.to_be_bytes().to_vec()
}

fn check(key: &EncryptionKey, usage: u32, data: &Vec<u8>, mac: &Vec<u8>) -> CksumVerdict {
    if sum(key, usage, data) == *mac {
        CksumVerdict::Good
    } else {
        CksumVerdict::Bad
    }
}

fn mac(key: &EncryptionKey, usage: u32, data: &Vec<u8>) -> Result<Vec<u8>, Error> {
    Ok(sum(key, usage, data))
}

fn answer(key: &EncryptionKey, ctime: u32, cusec: u32) -> Result<Vec<u8>, Error> {
    assert_eq!(*key, session());
    Ok(format!("ap-rep {ctime} {cusec}").into_bytes())
}

fn nothing(_: &EncryptionKey, _: &Vec<u8>) -> Option<DelegatedFacts> {
    None
}

fn bindings(data: &[u8]) -> ChannelBindings {
    ChannelBindings { application_data: data.to_vec(), ..ChannelBindings::default() }
}

fn verified(subkey: Option<EncryptionKey>, cksum: Option<ApChecksum>, mutual: bool) -> VerifiedReq {
    VerifiedReq {
        facts: AcceptFacts {
            subkey,
            ticket_session: session(),
            seq_number: Some(7),
            client: "user@KERBER.TEST".to_string(),
            endtime: 5_000,
            initial: true,
            sname: PrincipalName { name_type: 2, name_string: vec!["host".to_string()] },
            srealm: REALM.to_string(),
        },
        cksum,
        mutual_required: mutual,
        cbt: Ok(false),
        ctime: 11,
        cusec: 12,
    }
}

/// An initiator's context and token, with what went into its request.
fn initiate(mutual: bool, cb: Option<&ChannelBindings>) -> (GssContext, Vec<u8>, InitRequest) {
    let asked: RefCell<Option<InitRequest>> = RefCell::new(None);
    let (ctx, token) = GssContext::init_sec_context(
        &ticket(),
        &session(),
        REALM.to_string(),
        &name(&["user"]),
        mutual,
        cb,
        None,
        (11, 12),
        seal_cred,
        encode_cred,
        unparse,
        |t: &Ticket, k: &EncryptionKey, realm: &String, n: &PrincipalName, q: &InitRequest| {
            assert_eq!((t, k), (&ticket(), &session()));
            assert_eq!((realm.as_str(), n), (REALM, &name(&["user"])));
            *asked.borrow_mut() = Some(q.clone());
            Ok(b"ap-req".to_vec())
        },
    )
    .unwrap();
    (ctx, token, asked.into_inner().unwrap())
}

#[test]
fn initial_tokens_are_accepted() {
    let cb = bindings(b"tls");
    let (init, token, q) = initiate(true, Some(&cb));
    assert_eq!(token, gss_wrap_app(TOK_AP_REQ, b"ap-req"));
    assert_eq!((q.cksum.cksumtype, q.cksum.checksum.len()), (GSS_CHECKSUM_TYPE, 24));
    assert!(q.mutual && init.initiator);
    assert_eq!(init.client.as_deref(), Some("user@KERBER.TEST"));
    assert_eq!(*init.session_key(), q.subkey);
    assert_eq!((q.subkey.keytype, q.subkey.keyvalue.len()), (18, 32), "as the session key");
    let service = host();
    let verify = |ap: &Vec<u8>,
                  keys: &[EncryptionKey],
                  kvnos: Option<&[u32]>,
                  server: Option<&PrincipalName>,
                  realm: Option<&str>| {
        assert_eq!((ap.as_slice(), kvnos), (&b"ap-req"[..], Some(&[3u32, 4][..])));
        assert_eq!((keys, server, realm), (&keytab()[..], Some(&host()), Some(REALM)));
        Ok(verified(Some(q.subkey.clone()), Some(q.cksum.clone()), true))
    };
    let accept = |cb: &ChannelBindings| {
        GssContext::accept_sec_context_kt(
            &token,
            &keytab(),
            Some(&[3, 4]),
            Some(cb),
            Some(&service),
            Some(REALM),
            &verify,
            nothing,
            answer,
        )
    };
    let (acc, rep) = accept(&cb).unwrap();
    assert_eq!(*acc.session_key(), *init.session_key());
    assert_eq!(acc.client.as_deref(), Some("user@KERBER.TEST"));
    assert_eq!((acc.recv_seq, acc.ticket_is_initial()), (7, true));
    assert_ne!(acc.gss_flags & GSS_C_MUTUAL, 0);
    assert_ne!(acc.gss_flags & GSS_C_PROT_READY, 0);
    let inner = gss_unwrap_app(&rep.unwrap()).unwrap();
    assert_eq!(&inner[..2], &TOK_AP_REP);
    assert_eq!(&inner[2..], b"ap-rep 11 12");
    assert_eq!(accept(&bindings(b"other")).err(), Some(Error::ChannelBindings));
}

#[test]
fn key_versions_count_where_the_server_is_named() {
    let token = gss_wrap_app(TOK_AP_REQ, b"ap-req");
    let verify = |_: &Vec<u8>,
                  _: &[EncryptionKey],
                  kvnos: Option<&[u32]>,
                  server: Option<&PrincipalName>,
                  realm: Option<&str>| {
        assert!(kvnos.is_none() && server.is_none() && realm.is_none());
        Ok(verified(None, None, false))
    };
    let kvnos = Some(&[3u32][..]);
    let (acc, rep) = GssContext::accept_sec_context_kt(
        &token,
        &keytab(),
        kvnos,
        None,
        None,
        None,
        verify,
        nothing,
        answer,
    )
    .unwrap();
    assert!(rep.is_none());
    assert_eq!(*acc.session_key(), session());
    let (_, rep) =
        GssContext::accept_sec_context(&token, &keytab(), None, None, None, verify, nothing, answer)
            .unwrap();
    assert!(rep.is_none());
}

#[test]
fn bare_requests_are_three_legged() {
    let verify = |ap: &Vec<u8>,
                  _: &[EncryptionKey],
                  _: Option<&[u32]>,
                  _: Option<&PrincipalName>,
                  _: Option<&str>| {
        assert_eq!(ap, b"bare");
        Ok(verified(None, None, false))
    };
    let (acc, rep) =
        GssContext::accept_sec_context(b"bare", &keytab(), None, None, None, verify, nothing, answer)
            .unwrap();
    assert!(acc.is_dce_style());
    assert_ne!(acc.gss_flags & GSS_C_DCE, 0);
    assert_eq!(rep.unwrap(), b"ap-rep 11 12");
}

#[test]
fn tokens_that_are_not_verified_are_refused() {
    let token = gss_wrap_app(TOK_AP_REQ, b"ap-req");
    let refused = |token: &[u8], keys: &[EncryptionKey], e: &VerifyError| {
        let verify = |_: &Vec<u8>,
                      _: &[EncryptionKey],
                      _: Option<&[u32]>,
                      _: Option<&PrincipalName>,
                      _: Option<&str>| Err(e.clone());
        GssContext::accept_sec_context(token, keys, None, None, None, verify, nothing, answer)
            .err()
            .unwrap()
    };
    let crypto = |said: &str| VerifyError::Crypto {
        said: said.to_string(),
        shown: format!("crypto: {said}"),
    };
    let keys = keytab();
    assert_eq!(refused(&token, &keys, &crypto("bad integrity check")), Error::Integrity);
    assert_eq!(
        refused(&token, &keys, &crypto("no key")),
        Error::Inner("crypto: no key".to_string())
    );
    assert_eq!(
        refused(&token, &keys, &VerifyError::Other("repeat".to_string())),
        Error::Inner("repeat".to_string())
    );
    assert_eq!(refused(&token, &[], &crypto("no key")), Error::Truncated);
    assert_eq!(
        refused(&gss_wrap_app(TOK_AP_REP, b"x"), &keys, &crypto("no key")),
        Error::Truncated
    );
}

#[test]
fn credentials_are_sealed_under_the_session_key() {
    let made = krb_cred_for_deleg(
        &session(),
        cred(),
        (11, 12),
        &|k: &EncryptionKey, usage: u32, p: &CredPart| {
            assert_eq!((k, usage, p.timestamp, p.usec), (&session(), 14, 11, 12));
            assert_eq!(p.ticket_info.len(), 1);
            let i = &p.ticket_info[0];
            assert_eq!((&i.key, i.flags), (&cred().session, Some(0x4000_0000)));
            assert_eq!((i.authtime, i.starttime, i.endtime), (Some(100), None, Some(200)));
            assert_eq!((i.prealm.as_deref(), i.srealm.as_deref()), (Some(REALM), Some(REALM)));
            assert_eq!(i.pname, Some(name(&["user"])));
            assert_eq!(i.sname, Some(PrincipalName::krbtgt(REALM)));
            Ok(b"cipher".to_vec())
        },
        &|m: &CredMessage| {
            assert_eq!((m.pvno, m.msg_type, &m.tickets), (5, 22, &vec![ticket()]));
            let sealed = EncryptedData { etype: 18, kvno: None, cipher: b"cipher".to_vec() };
            assert_eq!(m.enc_part, sealed);
            Ok(b"krb-cred".to_vec())
        },
    );
    assert_eq!(made, Ok(b"krb-cred".to_vec()));
}

#[test]
fn failures_of_an_initiator_are_told() {
    let start = |deleg: Option<DelegCred>, sealed: bool, built: Result<Vec<u8>, Error>| {
        let built = RefCell::new(Some(built));
        GssContext::init_sec_context(
            &ticket(),
            &session(),
            REALM.to_string(),
            &name(&["user"]),
            false,
            None,
            deleg,
            (11, 12),
            |k: &EncryptionKey, usage: u32, _: &CredPart| {
                assert_eq!((k, usage), (&session(), 14));
                if sealed {
                    Ok(b"cipher".to_vec())
                } else {
                    Err(Error::Integrity)
                }
            },
            |m: &CredMessage| Ok(m.enc_part.cipher.clone()),
            unparse,
            |_: &Ticket, _: &EncryptionKey, _: &String, _: &PrincipalName, q: &InitRequest| {
                if q.cksum.checksum.len() > 24 {
                    assert_eq!(&q.cksum.checksum[28..], b"cipher");
                }
                built.borrow_mut().take().unwrap()
            },
        )
    };
    assert_eq!(start(Some(cred()), false, Ok(Vec::new())).err(), Some(Error::Integrity));
    assert_eq!(start(None, true, Err(Error::Truncated)).err(), Some(Error::Truncated));
    let (ctx, _) = start(Some(cred()), true, Ok(Vec::new())).unwrap();
    assert_ne!(ctx.gss_flags & GSS_C_DELEG, 0);
    let (ctx, _) = start(None, true, Ok(Vec::new())).unwrap();
    assert_eq!(ctx.gss_flags & (GSS_C_DELEG | GSS_C_MUTUAL), 0);
}

#[test]
fn negotiations_are_accepted() {
    let (mut init, token, q) = initiate(false, None);
    let offer = spnego_init(&token);
    let (service, keys) = (host(), keytab());
    let verify = |_: &Vec<u8>,
                  keys: &[EncryptionKey],
                  _: Option<&[u32]>,
                  server: Option<&PrincipalName>,
                  realm: Option<&str>| {
        assert_eq!((keys, server, realm), (&keytab()[..], Some(&host()), Some(REALM)));
        Ok(verified(Some(q.subkey.clone()), Some(q.cksum.clone()), false))
    };
    let accept = |token: &[u8]| {
        spnego_accept(
            token,
            &keys,
            None,
            Some(&service),
            Some(REALM),
            &verify,
            nothing,
            answer,
            check,
            mac,
        )
    };
    let (acc, resp) = accept(&offer).unwrap();
    assert_eq!(acc.send_seq, 1);
    init.spnego_mech_list = acc.spnego_mech_list.clone();
    assert_eq!(init.verify_spnego_mic(&resp, &check), Ok(()));
    assert_eq!(init.recv_seq, 1);
    assert_eq!(init.verify_spnego_mic(&resp, &check), Err(Error::Sequence));
    assert!(accept(b"\x60\x00").is_err());
    let failing = |_: &EncryptionKey, _: u32, _: &Vec<u8>| Err(Error::Integrity);
    let refused = spnego_accept_kt(
        &offer,
        &keys,
        Some(&[1]),
        None,
        Some(&service),
        Some(REALM),
        &verify,
        nothing,
        answer,
        check,
        failing,
    );
    assert_eq!(refused.err(), Some(Error::Integrity));
}

#[test]
fn checksum_tokens_are_made_and_verified() {
    let (mut init, _, q) = initiate(false, None);
    let mut acc = GssContext::fresh(q.subkey.clone(), false);
    let tok = init.get_mic_with(b"data", &mac).unwrap();
    assert_eq!(acc.verify_mic_with(b"date", &tok, &check), Err(Error::Integrity));
    assert_eq!(acc.verify_mic_with(b"data", &tok, &check), Ok(()));
    assert_eq!(acc.verify_mic_with(b"data", &tok, &check), Err(Error::Sequence));
    assert_eq!(init.verify_mic_with(b"data", &tok, &check), Err(Error::Integrity));
    let failing = |_: &EncryptionKey, _: u32, _: &Vec<u8>| Err(Error::Truncated);
    assert_eq!(init.get_mic_with(b"data", &failing), Err(Error::Truncated));
    assert_eq!(init.send_seq, 1);
}

#[test]
fn administration_contexts_hold_a_zero_key() {
    let name = PrincipalName { name_type: 2, name_string: vec!["kadmin".to_string()] };
    let ctx = GssContext::for_kadm5_acceptor(name.clone(), REALM.to_string());
    assert_eq!(*ctx.session_key(), EncryptionKey { keytype: 18, keyvalue: vec![0; 32] });
    assert_eq!((ctx.acceptor, ctx.ticket_realm.as_deref()), (Some(name), Some(REALM)));
}

/// Verifies the requests that [`initiate`] makes, whose ticket is for one service
/// under one version of its key, and keeps those that were seen.
struct Verifier {
    subkey: EncryptionKey,
    cksum: ApChecksum,
    kvno: u32,
    seen: RefCell<Vec<Vec<u8>>>,
}

impl Verifier {
    fn new(q: &InitRequest) -> Verifier {
        Verifier {
            subkey: q.subkey.clone(),
            cksum: q.cksum.clone(),
            kvno: 1,
            seen: RefCell::new(Vec::new()),
        }
    }

    fn verify(
        &self,
        ap: &Vec<u8>,
        keys: &[EncryptionKey],
        kvnos: Option<&[u32]>,
        server: Option<&PrincipalName>,
        realm: Option<&str>,
    ) -> Result<VerifiedReq, VerifyError> {
        let t = ticket();
        if kvnos.is_some_and(|k| !k.contains(&self.kvno)) {
            let text = "KRB-ERROR 44: Cannot find key for host/testhost.kerber.test kvno 1";
            return Err(VerifyError::Other(text.to_string()));
        }
        if server.is_some_and(|n| *n != t.sname) || realm.is_some_and(|r| r != t.realm) {
            return Err(VerifyError::Other("KRB-ERROR 35: Wrong principal in request".to_string()));
        }
        if !keys.contains(&keytab()[0]) {
            return Err(VerifyError::Crypto {
                said: "checksum integrity".to_string(),
                shown: "crypto: checksum integrity".to_string(),
            });
        }
        if self.seen.borrow().contains(ap) {
            return Err(VerifyError::Other("KRB-ERROR 34: authenticator replay".to_string()));
        }
        self.seen.borrow_mut().push(ap.clone());
        Ok(verified(Some(self.subkey.clone()), Some(self.cksum.clone()), true))
    }

    /// Accepts a token for a service, with some versions of its key.
    fn accept(
        &self,
        token: &[u8],
        keys: &[EncryptionKey],
        kvnos: Option<&[u32]>,
        server: &PrincipalName,
    ) -> Result<(GssContext, Option<Vec<u8>>), Error> {
        GssContext::accept_sec_context_kt(
            token,
            keys,
            kvnos,
            None,
            Some(server),
            Some(REALM),
            |ap: &Vec<u8>,
             keys: &[EncryptionKey],
             k: Option<&[u32]>,
             n: Option<&PrincipalName>,
             r: Option<&str>| self.verify(ap, keys, k, n, r),
            nothing,
            answer,
        )
    }
}

#[test]
fn accept_same_token_twice_is_repeat() {
    let (_, token, q) = initiate(false, None);
    let v = Verifier::new(&q);
    assert!(v.accept(&token, &keytab(), None, &host()).is_ok(), "first accept");
    match v.accept(&token, &keytab(), None, &host()) {
        Err(err) => assert_eq!(err.message(), "KRB-ERROR 34: authenticator replay"),
        Ok(_) => panic!("replayed AP-REQ must be 34"),
    }
}

#[test]
fn acceptor_rejects_wrong_service_name() {
    let (_, token, q) = initiate(false, None);
    let accept = |server: &PrincipalName| {
        Verifier::new(&q).accept(&token, &keytab(), None, server)
    };
    let Err(err) = accept(&name(&["other", "testhost.kerber.test"])) else {
        panic!("wrong service accepted")
    };
    assert!(
        err.message().contains("NOT_US")
            || err.message().contains("sname")
            || err.message().contains("35")
            || err.message().contains("does not match"),
        "got {}",
        err.message()
    );
    assert!(accept(&host()).is_ok(), "matching service");
    let other = vec![EncryptionKey { keytype: 18, keyvalue: vec![0x56; 32] }];
    let wrong_key = Verifier::new(&q).accept(&token, &other, None, &host());
    assert_eq!(wrong_key.err(), Some(Error::Integrity));
}

#[test]
fn z1_gss_accept_kt_matching_kvno_verifies() {
    let (_, token, q) = initiate(false, None);
    let v = Verifier::new(&q);
    let accepted = v.accept(&token, &keytab(), Some(&[v.kvno]), &host());
    assert!(accepted.is_ok(), "matching kvno verifies");
    let wrong = v.accept(&token, &keytab(), Some(&[2]), &host());
    let msg = wrong.err().unwrap().message();
    assert!(msg.contains("44") && msg.contains("Cannot find key for host/"), "got {msg}");
}

#[test]
fn accept_non_8003_over_data_is_bad_sig() {
    let token = gss_wrap_app(TOK_AP_REQ, b"ap-req");
    let over = sum(&session(), 10, b"not-empty");
    let verify = |_: &Vec<u8>,
                  _: &[EncryptionKey],
                  _: Option<&[u32]>,
                  _: Option<&PrincipalName>,
                  _: Option<&str>| {
        if sum(&session(), 10, b"") == over {
            Ok(verified(None, None, false))
        } else {
            Err(VerifyError::Crypto {
                said: "checksum integrity".to_string(),
                shown: "crypto: checksum integrity".to_string(),
            })
        }
    };
    let keys = keytab();
    match GssContext::accept_sec_context(&token, &keys, None, None, None, verify, nothing, answer) {
        Err(Error::Integrity) => {}
        Err(err) => panic!("non-0x8003 over data must be Integrity, got {}", err.message()),
        Ok(_) => panic!("non-0x8003 over data must be Integrity"),
    }
}

#[test]
fn mutual_ap_rep_decrypts_with_ticket_session() {
    let (mut init, token, q) = initiate(true, None);
    let v = Verifier::new(&q);
    let service = host();
    let sealed = |key: &EncryptionKey, ctime: u32, cusec: u32| -> Result<Vec<u8>, Error> {
        let mut rep = sum(key, 12, b"rep");
        rep.extend_from_slice(&ctime.to_be_bytes());
        rep.extend_from_slice(&cusec.to_be_bytes());
        Ok(rep)
    };
    let (_acc, ap_rep) = GssContext::accept_sec_context(
        &token,
        &keytab(),
        None,
        Some(&service),
        Some(REALM),
        |ap: &Vec<u8>,
         keys: &[EncryptionKey],
         k: Option<&[u32]>,
         n: Option<&PrincipalName>,
         r: Option<&str>| v.verify(ap, keys, k, n, r),
        nothing,
        sealed,
    )
    .unwrap();
    let tok = ap_rep.expect("mutual AP-REP");
    let open = |key: &EncryptionKey, usage: u32, c: &Vec<u8>| {
        if c[..8] == sum(key, usage, b"rep") {
            Ok(c[8..].to_vec())
        } else {
            Err(Error::Integrity)
        }
    };
    let whole = |x: &Vec<u8>| Ok(x.clone());
    let part = |plain: &Vec<u8>| {
        assert_eq!(plain, &[0, 0, 0, 11, 0, 0, 0, 12]);
        Ok(RepPart { seq_number: None, subkey: None })
    };
    assert_ne!(*init.session_key(), session());
    assert_eq!(init.process_ap_rep(&tok, &session(), whole, open, part), Ok(()));
    let other = EncryptionKey { keytype: 18, keyvalue: vec![5; 32] };
    assert_eq!(init.process_ap_rep(&tok, &other, whole, open, part), Err(Error::Integrity));
}

#[test]
fn subkeys_decide_the_context() {
    let sub = EncryptionKey { keytype: 18, keyvalue: vec![4; 32] };
    let start = |built: Result<Vec<u8>, Error>| {
        let built = RefCell::new(Some(built));
        GssContext::init_with_subkey(
            sub.clone(),
            &ticket(),
            &session(),
            REALM.to_string(),
            &name(&["user"]),
            true,
            None,
            Some(b"cred".to_vec()),
            &unparse,
            &|t: &Ticket, k: &EncryptionKey, _: &String, _: &PrincipalName, q: &InitRequest| {
                assert_eq!((t, k), (&ticket(), &session()));
                assert_eq!(q.subkey, sub);
                assert_eq!(&q.cksum.checksum[28..], b"cred");
                built.borrow_mut().take().unwrap()
            },
        )
    };
    let (ctx, token) = start(Ok(b"ap-req".to_vec())).unwrap();
    assert_eq!(*ctx.session_key(), sub);
    assert_eq!(token, gss_wrap_app(TOK_AP_REQ, b"ap-req"));
    assert_eq!(start(Err(Error::Truncated)).err(), Some(Error::Truncated));
}

#[test]
fn delegated_credentials_are_opened() {
    let sub = EncryptionKey { keytype: 18, keyvalue: vec![4; 32] };
    let asked: RefCell<Option<InitRequest>> = RefCell::new(None);
    let (_, token) = GssContext::init_with_subkey(
        sub.clone(),
        &ticket(),
        &session(),
        REALM.to_string(),
        &name(&["user"]),
        false,
        None,
        Some(b"cred".to_vec()),
        &unparse,
        &|_: &Ticket, _: &EncryptionKey, _: &String, _: &PrincipalName, q: &InitRequest| {
            *asked.borrow_mut() = Some(q.clone());
            Ok(b"ap-req".to_vec())
        },
    )
    .unwrap();
    let q = asked.into_inner().unwrap();
    let accept = |under: EncryptionKey| {
        GssContext::accept_sec_context(
            &token,
            &keytab(),
            None,
            None,
            None,
            |_: &Vec<u8>,
             _: &[EncryptionKey],
             _: Option<&[u32]>,
             _: Option<&PrincipalName>,
             _: Option<&str>| {
                Ok(verified(Some(sub.clone()), Some(q.cksum.clone()), false))
            },
            |k: &EncryptionKey, cred: &Vec<u8>| {
                assert_eq!(cred, b"cred");
                if *k == under {
                    Some(DelegatedFacts { client: Some("user@KERBER.TEST".to_string()) })
                } else {
                    None
                }
            },
            answer,
        )
    };
    for key in [sub.clone(), session()] {
        let (acc, _) = accept(key).unwrap();
        assert_eq!(acc.delegated(), Some("user@KERBER.TEST"));
        assert_ne!(acc.gss_flags & GSS_C_DELEG, 0);
    }
    let other = EncryptionKey { keytype: 18, keyvalue: vec![6; 32] };
    assert_eq!(accept(other).err(), Some(Error::Inner("gss failure".to_string())));
}
