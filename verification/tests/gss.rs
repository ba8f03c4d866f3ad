use krb5_kdc::gss::buffers::IovKey;
use krb5_kdc::gss::context::{
    ap_rep_token, ap_req_token, authenticator_cbt, authenticator_checksum, extract_delegated,
    initiator_flags, pinned_kvnos, process_checksum, random_subkey, AcceptFacts, ApChecksum,
    ApDatum, ChannelBindings, DelegatedFacts, GssContext, KRB5_GSS_FOR_CREDS,
};
use krb5_kdc::gss::deleg::{cred_info_for_deleg, deleg_cache_entry, DelegCred};
use krb5_kdc::gss::error::Error;
use krb5_kdc::gss::export::KeyShape;
use krb5_kdc::gss::iov::{join_wrap_token, IovBuf, IovType};
use krb5_kdc::gss::mic::{mic_octets, CksumVerdict};
use krb5_kdc::gss::oid::{
    der_tlv, gss_unwrap_app, gss_wrap_app, GSS_CHECKSUM_TYPE, GSS_C_CHANNEL_BOUND, GSS_C_CONF,
    GSS_C_DELEG, GSS_C_INTEG, GSS_C_MUTUAL, GSS_C_PROT_READY, GSS_C_REPLAY, GSS_C_SEQUENCE,
    GSS_C_TRANS, KRB5_OID, SPNEGO_OID,
};
use krb5_kdc::gss::rep::{RepPart, KU_AP_REP_ENC_PART};
use krb5_kdc::gss::spnego::{
    is_spnego, parse_neg_init, spnego_accept_start, spnego_init, spnego_inner, spnego_response,
    TOK_AP_REP, TOK_AP_REQ,
};
use krb5_kdc::gss::token_io::{token_frame, token_length, MAX_TOKEN};
use krb5_kdc::gss::wrap::{
    rotate_left, rotate_rrc, seal_input, seal_token, seal_usage, sign_usage,
    FLAG_ACCEPTOR_SUBKEY, FLAG_SEALED, TOK_WRAP,
};
use krb5_kdc::msg::{EncryptedData, EncryptionKey, Ticket};
use krb5_kdc::name::{PrincipalName, NT_PRINCIPAL};

const REALM: &str = "KERBER.TEST";

// A cipher for the tests: a confounder, the text under a repeated key, and a
// twelve-octet checksum.

fn checksum(key: &EncryptionKey, usage: u32, data: &[u8]) -> Vec<u8> {
    let mut h: u64 = 0xcbf2_9ce4_8422_2325 ^ u64::from(usage);
    for b in key.keyvalue.iter().chain(data.iter()) {
        h = (h ^ u64::from(*b)).wrapping_mul(0x0000_0100_0000_01b3);
    }
    let mut out = h.to_be_bytes().to_vec();
    out.extend_from_slice(&(h as u32).rotate_left(7).to_be_bytes());
    out
}

fn mask(key: &EncryptionKey, usage: u32, data: &[u8]) -> Vec<u8> {
    data.iter()
        .enumerate()
        .map(|(i, b)| b ^ key.keyvalue[i % key.keyvalue.len()] ^ (usage as u8))
        .collect()
}

fn encrypt(key: &EncryptionKey, usage: u32, plain: &[u8]) -> Vec<u8> {
    let mut text = vec![0xcc; 16];
    text.extend_from_slice(plain);
    let mac = checksum(key, usage, &text);
    let mut out = mask(key, usage, &text);
    out.extend_from_slice(&mac);
    out
}

fn decrypt(key: &EncryptionKey, usage: u32, cipher: &[u8]) -> Result<Vec<u8>, Error> {
    if cipher.len() < 28 {
        return Err(Error::Truncated);
    }
    let (c, mac) = cipher.split_at(cipher.len() - 12);
    let text = mask(key, usage, c);
    if checksum(key, usage, &text) != mac {
        return Err(Error::Integrity);
    }
    Ok(text[16..].to_vec())
}

fn session() -> EncryptionKey {
    EncryptionKey { keytype: 18, keyvalue: (1..33).collect() }
}

fn facts() -> AcceptFacts {
    AcceptFacts {
        subkey: None,
        ticket_session: session(),
        seq_number: Some(0),
        client: "user@KERBER.TEST".to_string(),
        endtime: 5_000,
        initial: false,
        sname: PrincipalName {
            name_type: 3,
            name_string: vec!["host".to_string(), "testhost.kerber.test".to_string()],
        },
        srealm: REALM.to_string(),
    }
}

fn gss_cksum(raw: Vec<u8>) -> Option<ApChecksum> {
    Some(ApChecksum { cksumtype: GSS_CHECKSUM_TYPE, checksum: raw })
}

fn bindings(data: &[u8]) -> ChannelBindings {
    ChannelBindings {
        initiator_addrtype: 0,
        initiator_address: Vec::new(),
        acceptor_addrtype: 0,
        acceptor_address: Vec::new(),
        application_data: data.to_vec(),
    }
}

fn contexts() -> (GssContext, GssContext) {
    let flags = initiator_flags(false, false);
    let (init, _) = GssContext::initiated(
        session(),
        "user@KERBER.TEST".to_string(),
        REALM.to_string(),
        flags,
        b"ap-req",
    );
    let ck = gss_cksum(authenticator_checksum(None, flags, None));
    let judged = process_checksum(&ck, false, None, Ok(None), Ok(false)).unwrap();
    let (acc, _) = GssContext::accepted(facts(), false, judged);
    (init, acc)
}

fn sealing(key: &EncryptionKey, usage: u32, plain: &Vec<u8>) -> Result<Vec<u8>, Error> {
    Ok(encrypt(key, usage, plain))
}

fn opening(key: &EncryptionKey, usage: u32, cipher: &Vec<u8>) -> Result<Vec<u8>, Error> {
    decrypt(key, usage, cipher)
}

fn signing(key: &EncryptionKey, usage: u32, data: &Vec<u8>) -> Result<Vec<u8>, Error> {
    Ok(checksum(key, usage, data))
}

fn checking(key: &EncryptionKey, usage: u32, data: &Vec<u8>, mac: &Vec<u8>) -> CksumVerdict {
    if checksum(key, usage, data) == *mac {
        CksumVerdict::Good
    } else {
        CksumVerdict::Bad
    }
}

fn twelve(_key: &EncryptionKey) -> Option<usize> {
    Some(12)
}

fn wrap(ctx: &mut GssContext, msg: &[u8]) -> Vec<u8> {
    ctx.wrap(msg, &sealing).unwrap()
}

fn wrap_with_rrc(ctx: &mut GssContext, msg: &[u8], rrc: u16) -> Vec<u8> {
    ctx.wrap_with_rrc(msg, rrc, &sealing).unwrap()
}

fn wrap_integ(ctx: &mut GssContext, msg: &[u8]) -> Vec<u8> {
    ctx.wrap_integ(msg, &signing).unwrap()
}

fn mit_shaped_wrap(key: &EncryptionKey, initiator: bool, seq: u64, msg: &[u8]) -> Vec<u8> {
    let cipher = encrypt(key, seal_usage(initiator), &seal_input(msg, initiator, false, 0, seq));
    seal_token(&cipher, initiator, false, 0, 0, seq)
}

fn unwrap_conf(ctx: &mut GssContext, tok: &[u8]) -> Result<(Vec<u8>, bool), Error> {
    ctx.unwrap_conf(tok, &twelve, &opening, &checking)
}

fn unwrap(ctx: &mut GssContext, tok: &[u8]) -> Result<Vec<u8>, Error> {
    ctx.unwrap(tok, &twelve, &opening, &checking)
}

fn get_mic(ctx: &mut GssContext, msg: &[u8]) -> Vec<u8> {
    let mac = checksum(&ctx.session, sign_usage(ctx.initiator), &ctx.get_mic_input(msg));
    ctx.get_mic(&mac)
}

fn verify_mic(ctx: &mut GssContext, msg: &[u8], tok: &[u8]) -> Result<(), Error> {
    let t = ctx.verify_mic_start(tok)?;
    let key = ctx.recv_key(t.flags)?.clone();
    let input = mic_octets(msg, t.flags, t.seq);
    let verdict = if checksum(&key, sign_usage(!ctx.initiator), &input) == t.mac {
        CksumVerdict::Good
    } else {
        CksumVerdict::Bad
    };
    ctx.verify_mic(&t, verdict)
}

#[test]
fn wrap_integ_round_trip_is_unsealed() {
    let (mut init, mut acc) = contexts();
    let tok = wrap_integ(&mut init, &1u32.to_be_bytes());
    assert_eq!(tok[2] & FLAG_SEALED, 0);
    let plain = unwrap(&mut acc, &tok).unwrap();
    assert_eq!(plain, 1u32.to_be_bytes());
}

#[test]
fn accept_short_8003_is_channel_bindings() {
    let r = process_checksum(&gss_cksum(vec![0u8; 8]), false, None, Ok(None), Ok(false));
    assert_eq!(r, Err(Error::ChannelBindings));
}

#[test]
fn mit_shaped_wrap_token_is_accepted() {
    let (init, mut acc) = contexts();
    let tok = mit_shaped_wrap(init.session_key(), true, 0, b"mit-layout");
    assert_eq!(&tok[..2], &TOK_WRAP);
    assert_eq!(tok[2] & FLAG_SEALED, FLAG_SEALED);
    let plain = unwrap(&mut acc, &tok).unwrap();
    assert_eq!(plain, b"mit-layout");
}

#[test]
fn spnego_long_form_length_round_trips() {
    let krb = vec![0x60; 200];
    let tok = spnego_init(&krb);
    assert_eq!(tok[0], 0x60);
    assert_ne!(tok[1], 0x80, "indefinite / overflow byte is not a DER length");
    assert!(tok[1] >= 0x81, "200-byte inner token needs long-form length");
    let inner = spnego_inner(&tok).unwrap();
    assert_eq!(inner, krb.as_slice());
    let raw = der_tlv(0x60, &[der_tlv(0x06, &KRB5_OID), vec![0x01, 0x00]].concat());
    assert_eq!(spnego_inner(&raw).unwrap(), raw.as_slice());
}

#[test]
fn spnego_accept_rejects_mech_list_without_krb5() {
    let krb = gss_wrap_app(TOK_AP_REQ, b"ap-req");
    let ntlm: &[u8] = &[0x2b, 0x06, 0x01, 0x04, 0x01, 0x82, 0x37, 0x02, 0x02, 0x0a];
    let oid = der_tlv(0x06, ntlm);
    let mech_types = der_tlv(0xa0, &der_tlv(0x30, &oid));
    let mech_token = der_tlv(0xa2, &der_tlv(0x04, &krb));
    let mut seq = mech_types;
    seq.extend_from_slice(&mech_token);
    let neg = der_tlv(0xa0, &der_tlv(0x30, &seq));
    let mut app = der_tlv(0x06, &SPNEGO_OID);
    app.extend_from_slice(&neg);
    let tok = der_tlv(0x60, &app);
    assert!(matches!(spnego_accept_start(&tok), Err(Error::Truncated)));
}

#[test]
fn spnego_duplicate_mech_types_is_truncated() {
    let krb = gss_wrap_app(TOK_AP_REQ, b"ap-req");
    let oid = der_tlv(0x06, &KRB5_OID);
    let mech_types = der_tlv(0xa0, &der_tlv(0x30, &oid));
    let mech_token = der_tlv(0xa2, &der_tlv(0x04, &krb));
    let mut seq = mech_types.clone();
    seq.extend_from_slice(&mech_types);
    seq.extend_from_slice(&mech_token);
    let neg = der_tlv(0xa0, &der_tlv(0x30, &seq));
    let mut app = der_tlv(0x06, &SPNEGO_OID);
    app.extend_from_slice(&neg);
    let tok = der_tlv(0x60, &app);
    assert!(matches!(spnego_accept_start(&tok), Err(Error::Truncated)));
}

#[test]
fn spnego_hostile_length_is_truncated_not_panic() {
    let mut tok = vec![0x60, 0x82, 0xff, 0xff, 0x06, 0x06];
    tok.extend_from_slice(&SPNEGO_OID);
    tok.extend_from_slice(&[0xa0, 0x03, 0x30, 0x01, 0x00]);
    assert!(matches!(parse_neg_init(&tok), Err(Error::Truncated)));
    assert!(matches!(spnego_accept_start(&tok), Err(Error::Truncated)));
}

#[test]
fn hostile_gss_oid_length_is_truncated_not_panic() {
    // APPLICATION 0 wrapping OID with attacker-controlled length 255.
    let mut tok = vec![0x60, 13, 0x06, 255];
    tok.extend_from_slice(&[0u8; 11]);
    assert!(matches!(gss_unwrap_app(&tok), Err(Error::Truncated)));
    assert!(gss_unwrap_app(&[0x60, 2, 0x06, 0xff]).is_err());
}

#[test]
fn process_ap_rep_acceptor_subkey_unwrap() {
    let (mut init, _acc) = contexts();
    let sub = random_subkey(18, 32).unwrap();
    assert_eq!((sub.keytype, sub.keyvalue.len()), (18, 32));
    assert_ne!(sub.keyvalue, vec![0u8; 32]);
    let token = gss_wrap_app(TOK_AP_REP, &encrypt(&session(), KU_AP_REP_ENC_PART, b"part"));
    let brought = |plain: &Vec<u8>| {
        assert_eq!(plain, b"part");
        Ok(RepPart { seq_number: None, subkey: Some(sub.clone()) })
    };
    let whole = |x: &Vec<u8>| Ok(x.clone());
    assert_eq!(init.process_ap_rep(&token, &session(), whole, opening, brought), Ok(()));
    assert_eq!(init.acceptor_subkey, Some(sub.clone()));
    let cipher = encrypt(&sub, seal_usage(false), &seal_input(b"subkey", false, true, 0, 0));
    let wrapped = seal_token(&cipher, false, true, 0, 0, 0);
    assert_ne!(wrapped[2] & FLAG_ACCEPTOR_SUBKEY, 0);
    assert_eq!(unwrap(&mut init, &wrapped).unwrap(), b"subkey");
    let (mut plain, _) = contexts();
    assert_eq!(
        unwrap(&mut plain, &wrapped),
        Err(Error::Inner("gss acceptor subkey".to_string()))
    );
}

#[test]
fn deleg_checksum_carries_krb_cred() {
    let b = authenticator_checksum(None, initiator_flags(false, true), Some(b"krb-cred"));
    assert!(b.len() > 28, "deleg trailer missing: len={}", b.len());
    let flags = u32::from_le_bytes(b[20..24].try_into().unwrap());
    assert_ne!(flags & GSS_C_DELEG, 0);
    assert_eq!(&b[24..26], &KRB5_GSS_FOR_CREDS.to_le_bytes());
    assert_eq!(&b[26..28], &8u16.to_le_bytes());
    assert_eq!(&b[28..], b"krb-cred");
}

#[test]
fn accept_hostile_dlgth_is_truncated() {
    let mut ck = authenticator_checksum(None, GSS_C_DELEG | GSS_C_INTEG, Some(b"krb-cred"));
    ck[26..28].copy_from_slice(&0xFFFFu16.to_le_bytes());
    let err = process_checksum(&gss_cksum(ck), false, None, Ok(None), Ok(false)).unwrap_err();
    assert!(
        matches!(&err, Error::Inner(s) if s.contains("gss failure")),
        "hostile Dlgth must be gss failure, got {}",
        err.message()
    );
}

#[test]
fn accept_plaintext_krb_cred_is_refused() {
    let ck = authenticator_checksum(None, GSS_C_DELEG | GSS_C_INTEG, Some(b"plain"));
    let opened = |_: &EncryptionKey, cred: &Vec<u8>| {
        assert_eq!(cred, b"plain");
        None
    };
    let delegated = || extract_delegated(&ck, GSS_C_DELEG, &None, &session(), &opened);
    let err = delegated().unwrap_err();
    assert!(matches!(err, Error::Inner(ref m) if m == "gss failure"));
    let err = process_checksum(&gss_cksum(ck.clone()), false, None, delegated(), Ok(false))
        .unwrap_err();
    assert!(matches!(err, Error::Inner(ref m) if m == "gss failure"));
}

fn iov(kinds: &[(IovType, &[u8])]) -> Vec<IovBuf> {
    kinds.iter().map(|(k, d)| IovBuf { kind: *k, data: d.to_vec() }).collect()
}

fn kind_of(key: &EncryptionKey) -> IovKey {
    match key.keytype {
        17 | 18 => IovKey { aes: true, hmac_len: 12, cipher_signed: false },
        20 => IovKey { aes: true, hmac_len: 24, cipher_signed: true },
        _ => IovKey { aes: false, hmac_len: 20, cipher_signed: false },
    }
}

fn integrity(key: &EncryptionKey, usage: u32, data: &Vec<u8>) -> Result<Vec<u8>, Error> {
    let mac = checksum(key, usage, data);
    let n = usize::from(kind_of(key).hmac_len);
    Ok(mac.iter().cycle().take(n).copied().collect())
}

fn seal_with(
    key: &EncryptionKey,
    usage: u32,
    conf: &Vec<u8>,
    plain: &Vec<u8>,
) -> Result<Vec<u8>, Error> {
    assert_eq!(conf.len(), 16);
    let text = [&conf[..], &plain[..]].concat();
    let mut out = mask(key, usage, &text);
    out.extend_from_slice(&integrity(key, usage, &text)?);
    Ok(out)
}

fn open_cts(
    key: &EncryptionKey,
    usage: u32,
    cipher: &Vec<u8>,
) -> Result<(Vec<u8>, Vec<u8>), Error> {
    if cipher.len() < 16 {
        return Err(Error::Truncated);
    }
    let text = mask(key, usage, cipher);
    Ok((text[..16].to_vec(), text[16..].to_vec()))
}

fn wrap_iov(ctx: &mut GssContext, conf: bool, v: &mut Vec<IovBuf>) -> Result<(), Error> {
    ctx.wrap_iov(conf, v, &kind_of, &sealing, &seal_with, &integrity, &signing)
}

fn unwrap_iov(ctx: &mut GssContext, v: &mut Vec<IovBuf>) -> Result<(), Error> {
    ctx.unwrap_iov(v, &kind_of, &twelve, &opening, &checking, &open_cts, &integrity)
}

fn wrap_iov_once(ctx: &mut GssContext, msg: &[u8], assoc: Option<&[u8]>) -> Vec<IovBuf> {
    let mut v = iov(&[
        (IovType::Header, b""),
        (IovType::Data, msg),
        (IovType::Padding, &[0xff]),
        (IovType::Trailer, b""),
    ]);
    if let Some(a) = assoc {
        v.insert(1, IovBuf { kind: IovType::SignOnly, data: a.to_vec() });
    }
    wrap_iov(ctx, true, &mut v).unwrap();
    v
}

#[test]
fn wrap_iov_slices_match_wrap_token() {
    let (mut init, mut acc) = contexts();
    let v = wrap_iov_once(&mut init, b"iov-hello", None);
    assert_eq!(v[0].data.len(), 32, "GSS 16 + AES confounder 16");
    assert_eq!(v[2].data.len(), 0, "AES padding empty");
    assert_eq!(v[3].data.len(), 16 + 12, "E(header)+HMAC-SHA1-96");
    assert_eq!(&v[0].data[..2], &TOK_WRAP);
    assert_eq!(&v[0].data[6..8], &[0, 0], "RRC=0");
    let tok: Vec<u8> = [&v[0].data[..], &v[1].data[..], &v[2].data[..], &v[3].data[..]].concat();
    assert_eq!(join_wrap_token(&v).unwrap(), tok);
    assert_eq!(unwrap(&mut acc, &tok).unwrap(), b"iov-hello");
    let (mut init, mut acc) = contexts();
    let mut v = iov(&[
        (IovType::Header, b""),
        (IovType::Data, b"iov-hello"),
        (IovType::Padding, b""),
        (IovType::Trailer, b""),
    ]);
    wrap_iov(&mut init, true, &mut v).unwrap();
    unwrap_iov(&mut acc, &mut v).unwrap();
    assert_eq!(v[1].data, b"iov-hello");
}

#[test]
fn wrap_iov_sign_only_is_checksummed_not_encrypted() {
    let (mut init, mut acc) = contexts();
    let assoc = b"rpc-hdr";
    let mut v = wrap_iov_once(&mut init, b"body", Some(assoc));
    assert_eq!(v[1].data, assoc, "SIGN_ONLY is not encrypted");
    assert_ne!(v[2].data, b"body", "DATA is ciphertext");
    unwrap_iov(&mut acc, &mut v).unwrap();
    assert_eq!(v[2].data, b"body");
    let (mut init, mut acc) = contexts();
    let mut v = wrap_iov_once(&mut init, b"body", Some(assoc));
    v[1].data[0] ^= 1;
    assert!(matches!(unwrap_iov(&mut acc, &mut v), Err(Error::Integrity)));
    v[1].data[0] ^= 1;
    unwrap_iov(&mut acc, &mut v).unwrap();
    assert_eq!(v[2].data, b"body");
}

#[test]
fn wrap_iov_rfc8009_sign_only_round_trips() {
    let key = EncryptionKey { keytype: 20, keyvalue: vec![0x5a; 32] };
    let (mut init, mut acc) = contexts();
    init.session = key.clone();
    acc.session = key;
    let mut v = wrap_iov_once(&mut init, b"sha2-body", Some(b"rpc-hdr"));
    assert_eq!(v[4].data.len(), 16 + 24, "E(header)+HMAC-SHA384-192");
    assert_eq!(v[1].data, b"rpc-hdr");
    let mut bad = v.clone();
    bad[1].data[0] ^= 1;
    assert!(matches!(unwrap_iov(&mut acc, &mut bad), Err(Error::Integrity)));
    unwrap_iov(&mut acc, &mut v).unwrap();
    assert_eq!(v[2].data, b"sha2-body");
}

#[test]
fn wrap_iov_integ_aes_round_trips() {
    let (mut init, mut acc) = contexts();
    let mut v = iov(&[
        (IovType::Header, b""),
        (IovType::Data, b"integ-only"),
        (IovType::Padding, b""),
        (IovType::Trailer, b""),
    ]);
    wrap_iov(&mut init, false, &mut v).unwrap();
    assert_eq!(v[0].data.len(), 16);
    assert_eq!(v[1].data, b"integ-only");
    unwrap_iov(&mut acc, &mut v).unwrap();
    assert_eq!(v[1].data, b"integ-only");
}

#[test]
fn unwrap_iov_integ_rejects_non_aes() {
    let (_, mut ctx) = contexts();
    ctx.session = EncryptionKey { keytype: 16, keyvalue: vec![0x11; 24] };
    let mut v = iov(&[
        (IovType::Header, &[0x05, 0x04, 0x00, 0xff, 0, 0, 0, 0, 0, 0, 0, 0, 0, 0, 0, 0]),
        (IovType::Data, b"x"),
        (IovType::Padding, b""),
        (IovType::Trailer, b""),
    ]);
    let err = unwrap_iov(&mut ctx, &mut v);
    assert!(
        matches!(err, Err(Error::Inner(ref s)) if s.contains("aes")),
        "non-AES unwrap_iov_integ must fail, got {err:?}"
    );
    let mut v = iov(&[(IovType::Header, b""), (IovType::Data, b"x"), (IovType::Trailer, b"")]);
    let err = wrap_iov(&mut ctx, true, &mut v);
    assert!(matches!(err, Err(Error::Inner(ref s)) if s.contains("aes")));
    assert!(matches!(ctx.wrap_iov_length(true, &kind_of), Err(Error::Inner(_))));
}

#[test]
fn wrap_iov_hostile_header_is_truncated() {
    let (mut init, mut acc) = contexts();
    let mut v = iov(&[(IovType::Data, b"x"), (IovType::Trailer, b"")]);
    assert!(matches!(wrap_iov(&mut init, true, &mut v), Err(Error::Truncated)));
    assert_eq!(init.wrap_iov_length(true, &kind_of), Ok((32, 0, 28)));
    assert_eq!(init.wrap_iov_length(false, &kind_of), Ok((16, 0, 12)));
    assert!(matches!(unwrap_iov(&mut acc, &mut v), Err(Error::Truncated)));
    let mut v = iov(&[(IovType::Header, b""), (IovType::Trailer, b"")]);
    assert!(matches!(wrap_iov(&mut init, true, &mut v), Err(Error::Truncated)));
}

#[test]
fn sealed_buffers_refuse_rotation_and_own_side() {
    let (mut init, mut acc) = contexts();
    let v = wrap_iov_once(&mut init, b"body", Some(b"hdr"));
    let mut own = v.clone();
    assert!(matches!(unwrap_iov(&mut init, &mut own), Err(Error::Integrity)));
    let mut turned = v.clone();
    turned[0].data[7] = 1;
    assert!(matches!(unwrap_iov(&mut acc, &mut turned), Err(Error::Truncated)));
    let mut numbered = v.clone();
    numbered[0].data[15] ^= 1;
    assert!(matches!(unwrap_iov(&mut acc, &mut numbered), Err(Error::Truncated)));
    let mut short = v.clone();
    short[2].data = b"bo".to_vec();
    assert!(unwrap_iov(&mut acc, &mut short).is_err());
    let mut good = v;
    unwrap_iov(&mut acc, &mut good.clone()).unwrap();
    assert!(matches!(unwrap_iov(&mut acc, &mut good), Err(Error::Sequence)));
}

#[test]
fn z1_gss_accept_kt_pins_ticket_kvno() {
    // A named server pins the version; without a name every key is tried.
    assert_eq!(pinned_kvnos(true, Some(&[2])), Some(&[2u32][..]));
    assert_eq!(pinned_kvnos(false, Some(&[2])), None);
    assert_eq!(pinned_kvnos(true, None), None);
}

#[test]
fn wrap_unwrap_mic_round_trip() {
    let (mut init, mut acc) = contexts();
    let wrapped = wrap(&mut init, b"hello gss");
    assert_eq!(&wrapped[6..8], &[0, 0], "MIT wrap uses RRC=0");
    let plain = unwrap(&mut acc, &wrapped).unwrap();
    assert_eq!(plain, b"hello gss");
    let mic = get_mic(&mut init, b"hello gss");
    verify_mic(&mut acc, b"hello gss", &mic).unwrap();
    assert!(unwrap(&mut acc, &wrapped).is_err());
}

#[test]
fn garbage_mac_does_not_consume_seq() {
    let (mut init, mut acc) = contexts();
    let good = wrap(&mut init, b"keep-seq");
    let mut bad = good.clone();
    let last = bad.last_mut().expect("wrap token");
    *last ^= 0xff;
    assert!(unwrap(&mut acc, &bad).is_err(), "garbage MAC must fail");
    assert_eq!(
        unwrap(&mut acc, &good).unwrap(),
        b"keep-seq",
        "in-window seq must still accept a later good MAC"
    );
    let (mut init, mut acc) = contexts();
    let mic = get_mic(&mut init, b"keep-seq");
    let mut bad = mic.clone();
    let last = bad.last_mut().expect("mic token");
    *last ^= 0xff;
    assert!(matches!(verify_mic(&mut acc, b"keep-seq", &bad), Err(Error::Integrity)));
    verify_mic(&mut acc, b"keep-seq", &mic).unwrap();
}

#[test]
fn wrap_integ_wrong_ec_is_truncated() {
    let (mut init, mut acc) = contexts();
    let mut tok = wrap_integ(&mut init, b"ec");
    tok[5] = tok[5].wrapping_add(1);
    assert!(matches!(unwrap(&mut acc, &tok), Err(Error::Truncated)));
}

#[test]
fn verify_mic_bad_filler_is_truncated() {
    let (mut init, mut acc) = contexts();
    let mut mic = get_mic(&mut init, b"mic");
    mic[3] = 0x00;
    assert!(matches!(verify_mic(&mut acc, b"mic", &mic), Err(Error::Truncated)));
}

#[test]
fn channel_bindings_must_match() {
    let cb = bindings(b"tls-unique-test");
    let ck = gss_cksum(authenticator_checksum(Some(&cb), GSS_C_INTEG, None));
    assert!(process_checksum(&ck, false, Some(&cb), Ok(None), Ok(false)).is_ok());
    let other = bindings(b"other");
    assert_eq!(
        process_checksum(&ck, false, Some(&other), Ok(None), Ok(false)),
        Err(Error::ChannelBindings)
    );
    process_checksum(&ck, false, None, Ok(None), Ok(false))
        .expect("acceptor GSS_C_NO_CHANNEL_BINDINGS ignores token CB");
}

#[test]
fn spnego_accept_emits_neg_token_resp() {
    let krb = gss_wrap_app(TOK_AP_REQ, b"ap-req");
    let tok = spnego_init(&krb);
    assert!(is_spnego(&tok));
    let (init, mech) = spnego_accept_start(&tok).unwrap();
    assert_eq!(mech, krb);
    let resp = spnego_response(Some(b"ap-rep"), b"mic-token");
    assert_eq!(resp.first().copied(), Some(0xa1), "MIT wants bare NegTokenResp");
    let mut ctx = GssContext::fresh(session(), true);
    assert_eq!(ctx.spnego_mic_token(&resp), Err(Error::Truncated), "nothing was negotiated");
    ctx.spnego_mech_list = Some(init.mech_list_der);
    assert_eq!(ctx.spnego_mic_token(&resp).unwrap(), b"mic-token");
}

#[test]
fn first_seq_must_match_authenticator_base() {
    let (init, mut acc) = contexts();
    let bad = mit_shaped_wrap(init.session_key(), true, 5, b"skip");
    assert!(matches!(unwrap(&mut acc, &bad), Err(Error::Sequence)));
    let good = mit_shaped_wrap(init.session_key(), true, 0, b"ok");
    assert_eq!(unwrap(&mut acc, &good).unwrap(), b"ok");
}

#[test]
fn rpcsec_init_window_accepts_seq_gap_default_rejects() {
    let (mut strict, acc) = contexts();
    let gap = mit_shaped_wrap(acc.session_key(), false, 1, b"init-win");
    assert!(
        matches!(unwrap(&mut strict, &gap), Err(Error::Sequence)),
        "default first-recv must match authenticator base"
    );
    let (mut iprop, acc) = contexts();
    iprop.allow_rpcsec_init_window();
    let gap = mit_shaped_wrap(acc.session_key(), false, 1, b"init-win");
    assert_eq!(unwrap(&mut iprop, &gap).unwrap(), b"init-win");
}

#[test]
fn wrap_mic_replay_inside_window_is_rejected() {
    let (mut init, mut acc) = contexts();
    let w = wrap(&mut init, b"one");
    unwrap(&mut acc, &w).unwrap();
    // Gap inside the window is accepted (seq 0 then seq 2).
    let gap = mit_shaped_wrap(init.session_key(), true, 2, b"gap");
    assert_eq!(unwrap(&mut acc, &gap).unwrap(), b"gap");
    assert!(matches!(unwrap(&mut acc, &w), Err(Error::Sequence)));
    let mic = get_mic(&mut init, b"one");
    verify_mic(&mut acc, b"one", &mic).unwrap();
    assert!(matches!(verify_mic(&mut acc, b"one", &mic), Err(Error::Sequence)));
}

#[test]
fn rrc_nonzero_round_trip_pins_rotate_direction() {
    let (mut init, mut acc) = contexts();
    let tok = wrap_with_rrc(&mut init, b"rrc-payload", 16);
    assert_ne!(&tok[6..8], &[0, 0], "RRC field must be non-zero");
    let plain = unwrap(&mut acc, &tok).unwrap();
    assert_eq!(plain, b"rrc-payload");
    assert_eq!(rotate_left(&[1, 2, 3, 4], 1), [2, 3, 4, 1]);
    assert_eq!(rotate_rrc(&[2, 3, 4, 1], 1), [1, 2, 3, 4]);
}

#[test]
fn accept_extracts_delegated_client() {
    let raw = authenticator_checksum(None, initiator_flags(false, true), Some(b"cred"));
    let flags = initiator_flags(false, true);
    let sub = EncryptionKey { keytype: 18, keyvalue: vec![9; 32] };
    let named = |key: &EncryptionKey, client: Option<&str>| {
        let (key, client) = (key.clone(), client.map(str::to_string));
        move |k: &EncryptionKey, cred: &Vec<u8>| {
            assert_eq!(cred, b"cred");
            if *k == key {
                Some(DelegatedFacts { client: client.clone() })
            } else {
                None
            }
        }
    };
    let under_session = named(&session(), Some("user@KERBER.TEST"));
    let delegated =
        extract_delegated(&raw, flags, &Some(sub.clone()), &session(), &under_session);
    let judged = process_checksum(&gss_cksum(raw.clone()), false, None, delegated, Ok(false));
    let (acc, _) = GssContext::accepted(facts(), false, judged.unwrap());
    assert_eq!(acc.delegated(), Some("user@KERBER.TEST"));
    let both = |k: &EncryptionKey, _: &Vec<u8>| {
        let client = if *k == sub { "a@R" } else { "b@R" };
        Some(DelegatedFacts { client: Some(client.to_string()) })
    };
    assert_eq!(
        extract_delegated(&raw, flags, &Some(sub.clone()), &session(), &both),
        Ok(Some("a@R".to_string())),
        "the subkey comes first"
    );
    assert_eq!(
        extract_delegated(&raw, flags, &None, &session(), &named(&session(), None)),
        Err(Error::Truncated)
    );
    assert_eq!(extract_delegated(&raw, 0, &None, &session(), &both), Ok(None));
    assert_eq!(
        extract_delegated(&raw[..raw.len() - 1], flags, &None, &session(), &both),
        Err(Error::Truncated)
    );
    assert_eq!(
        extract_delegated(&raw[..27], flags, &None, &session(), &both),
        Err(Error::Truncated)
    );
}

#[test]
fn export_import_wrap_still_works() {
    let shapes = [KeyShape { keytype: 18, len: 32 }];
    let (mut init, acc) = contexts();
    let w = wrap(&mut init, b"keep");
    let tok = acc.export_sec_context().unwrap();
    let mut acc2 = GssContext::import_sec_context(&tok, &shapes).unwrap();
    assert_eq!(unwrap(&mut acc2, &w).unwrap(), b"keep");
    let w2 = wrap(&mut init, b"again");
    assert_eq!(unwrap(&mut acc2, &w2).unwrap(), b"again");
    assert!(matches!(
        GssContext::import_sec_context(&tok[..8], &shapes),
        Err(Error::Truncated)
    ));
    assert!(matches!(
        GssContext::import_sec_context(b"XXXX", &shapes),
        Err(Error::Truncated)
    ));
    assert!(GssContext::import_sec_context(&tok, &[]).is_err(), "no such key");
}

#[test]
fn inquire_reports_lifetime_and_flags() {
    let flags = initiator_flags(false, false);
    let ck = gss_cksum(authenticator_checksum(None, flags | GSS_C_INTEG | GSS_C_CONF, None));
    let judged = process_checksum(&ck, false, None, Ok(None), Ok(false)).unwrap();
    let (acc, _) = GssContext::accepted(facts(), false, judged);
    let q = acc.inquire_context(1_000);
    assert!(!q.initiator);
    assert_ne!(q.flags & GSS_C_INTEG, 0);
    assert_ne!(q.flags & GSS_C_CONF, 0);
    assert_ne!(q.flags & GSS_C_TRANS, 0);
    assert_eq!(q.lifetime, 4_000, "ticket endtime must be stashed");
    assert!(q.client.is_some());
    assert_eq!(acc.inquire_context(6_000).lifetime, 0);
    let (init, _) = contexts();
    assert!(init.inquire_context(1_000).initiator);
    assert_ne!(init.gss_flags() & GSS_C_INTEG, 0);
}

#[test]
fn accept_no_checksum_is_flags_zero_and_no_ap_rep() {
    let judged = process_checksum(&None, true, None, Ok(None), Ok(false)).unwrap();
    let (acc, rep) = GssContext::accepted(facts(), false, judged);
    assert!(!rep);
    assert_eq!(acc.inquire_context(0).flags & !(GSS_C_TRANS | GSS_C_PROT_READY), 0);
}

#[test]
fn accept_non_8003_empty_with_subkey_uses_session_key() {
    let ck = Some(ApChecksum { cksumtype: 16, checksum: vec![0; 12] });
    let judged = process_checksum(&ck, true, None, Ok(None), Ok(false)).unwrap();
    let (acc, rep) = GssContext::accepted(facts(), false, judged);
    assert!(rep);
    let flags = acc.inquire_context(0).flags;
    assert_ne!(flags & GSS_C_MUTUAL, 0);
    assert_ne!(flags & GSS_C_REPLAY, 0);
    assert_ne!(flags & GSS_C_SEQUENCE, 0);
}

#[test]
fn accept_cb_mismatch_is_bad_bindings() {
    let ck = gss_cksum(authenticator_checksum(Some(&bindings(b"tls-a")), GSS_C_INTEG, None));
    assert_eq!(
        process_checksum(&ck, false, Some(&bindings(b"tls-b")), Ok(None), Ok(false)),
        Err(Error::ChannelBindings)
    );
}

#[test]
fn accept_cb_match_sets_channel_bound() {
    let cb = bindings(b"tls-unique");
    let ck = gss_cksum(authenticator_checksum(Some(&cb), GSS_C_INTEG, None));
    let judged = process_checksum(&ck, false, Some(&cb), Ok(None), Ok(false)).unwrap();
    let (acc, _) = GssContext::accepted(facts(), false, judged);
    assert_ne!(acc.inquire_context(0).flags & GSS_C_CHANNEL_BOUND, 0);
}

#[test]
fn accept_cb_len_not_16_is_failure() {
    let mut raw = vec![0u8; 24];
    raw[0..4].copy_from_slice(&8u32.to_le_bytes());
    match process_checksum(&gss_cksum(raw), false, None, Ok(None), Ok(false)) {
        Err(Error::Inner(s)) if s.contains("gss failure") => {}
        Err(e) => panic!("expected gss failure, got {}", e.message()),
        Ok(_) => panic!("expected gss failure"),
    }
}

#[test]
fn accept_initiator_flags_are_masked() {
    let mut raw = vec![0u8; 24];
    raw[0..4].copy_from_slice(&16u32.to_le_bytes());
    raw[20..24].copy_from_slice(&(GSS_C_INTEG | GSS_C_DELEG | 0x0800_0000).to_le_bytes());
    let judged = process_checksum(&gss_cksum(raw), false, None, Ok(None), Ok(false)).unwrap();
    let (acc, _) = GssContext::accepted(facts(), false, judged);
    let flags = acc.inquire_context(0).flags;
    assert_eq!(flags & GSS_C_INTEG, GSS_C_INTEG);
    assert_eq!(flags & GSS_C_DELEG, 0);
    assert_eq!(flags & 0x0800_0000, 0);
}

#[test]
fn accept_bad_deleg_option_id_is_failure() {
    let mut raw = vec![0u8; 32];
    raw[0..4].copy_from_slice(&16u32.to_le_bytes());
    raw[20..24].copy_from_slice(&GSS_C_DELEG.to_le_bytes());
    raw[24..26].copy_from_slice(&99u16.to_le_bytes());
    raw[26..28].copy_from_slice(&4u16.to_le_bytes());
    match process_checksum(&gss_cksum(raw), false, None, Ok(None), Ok(false)) {
        Err(Error::Inner(s)) if s.contains("gss failure") => {}
        Err(e) => panic!("expected gss failure, got {}", e.message()),
        Ok(_) => panic!("expected gss failure"),
    }
}

#[test]
fn accept_trailing_extensions_are_skipped() {
    let mut raw = vec![0u8; 24 + 12];
    raw[0..4].copy_from_slice(&16u32.to_le_bytes());
    raw[20..24].copy_from_slice(&GSS_C_MUTUAL.to_le_bytes());
    raw[24..28].copy_from_slice(&0x0000_0001u32.to_be_bytes());
    raw[28..32].copy_from_slice(&4u32.to_be_bytes());
    let judged = process_checksum(&gss_cksum(raw), false, None, Ok(None), Ok(false)).unwrap();
    let (acc, rep) = GssContext::accepted(facts(), false, judged);
    assert!(rep);
    assert_ne!(acc.inquire_context(0).flags & GSS_C_MUTUAL, 0);
}

#[test]
fn accept_zero_token_cb_with_acceptor_cb_is_ok() {
    let ck = gss_cksum(authenticator_checksum(None, GSS_C_INTEG, None));
    let local = bindings(b"acceptor-only");
    process_checksum(&ck, false, Some(&local), Ok(None), Ok(false))
        .expect("all-zero token CB is accepted when the acceptor has bindings");
    assert_eq!(
        process_checksum(&ck, false, Some(&local), Ok(None), Ok(true)),
        Err(Error::ChannelBindings),
        "unless the client insists on them"
    );
}

#[test]
fn unwrap_direction_flipped_is_bad_sig() {
    let (mut init, mut acc) = contexts();
    let mut tok = wrap(&mut init, b"dir");
    tok[2] ^= 0x01;
    assert!(matches!(unwrap(&mut acc, &tok), Err(Error::Integrity)));
}

#[test]
fn unwrap_bad_filler_is_defective() {
    let (mut init, mut acc) = contexts();
    let mut tok = wrap(&mut init, b"fill");
    tok[3] = 0x00;
    assert!(matches!(unwrap(&mut acc, &tok), Err(Error::Truncated)));
}

fn conf_token(key: &EncryptionKey, initiator: bool, seq: u64, msg: &[u8], ec: u16, rrc: u16) -> Vec<u8> {
    let cipher = encrypt(key, seal_usage(initiator), &seal_input(msg, initiator, false, ec, seq));
    seal_token(&cipher, initiator, false, ec, rrc, seq)
}

#[test]
fn unwrap_conf_ec_padding_is_stripped() {
    let (init, mut acc) = contexts();
    let tok = conf_token(init.session_key(), true, 0, b"ec-plain", 16, 0);
    let plain = unwrap(&mut acc, &tok).unwrap();
    assert_eq!(plain, b"ec-plain");
}

#[test]
fn unwrap_rrc_round_trip_both_directions() {
    let (mut init, mut acc) = contexts();
    let tok = wrap_with_rrc(&mut init, b"rrc-init", 16);
    assert_ne!(&tok[6..8], &[0, 0]);
    assert_eq!(unwrap(&mut acc, &tok).unwrap(), b"rrc-init");
    let tok = wrap_with_rrc(&mut acc, b"rrc-acc", 16);
    assert_ne!(&tok[6..8], &[0, 0]);
    assert_eq!(unwrap(&mut init, &tok).unwrap(), b"rrc-acc");
    let tok = conf_token(init.session_key(), true, 2, b"rrc-ec", 16, 16);
    assert_eq!(unwrap(&mut acc, &tok).unwrap(), b"rrc-ec");
}

#[test]
fn unwrap_non_conf_ec_not_cksumsize_is_defective() {
    let (mut init, mut acc) = contexts();
    let mut tok = wrap_integ(&mut init, b"ec");
    tok[5] = tok[5].wrapping_add(1);
    assert!(matches!(unwrap(&mut acc, &tok), Err(Error::Truncated)));
}

#[test]
fn unwrap_conf_reports_confidentiality() {
    let (mut init, mut acc) = contexts();
    let sealed = wrap(&mut init, b"sealed-body");
    let (data, conf) = unwrap_conf(&mut acc, &sealed).unwrap();
    assert_eq!(data, b"sealed-body");
    assert!(conf, "a wrap token is sealed");
    let (mut init2, mut acc2) = contexts();
    let integ = wrap_integ(&mut init2, b"integ-body");
    let (data, conf) = unwrap_conf(&mut acc2, &integ).unwrap();
    assert_eq!(data, b"integ-body");
    assert!(!conf, "wrap_integ is integrity-only; a privacy service must reject it");
}

#[test]
fn acceptor_sets_prot_ready_flag() {
    let (_, acc) = contexts();
    assert_ne!(
        acc.inquire_context(0).flags & GSS_C_PROT_READY,
        0,
        "established context sets GSS_C_PROT_READY_FLAG"
    );
}

#[test]
fn rrc_reduces_modulo_the_payload_length() {
    let (mut init, _) = contexts();
    let tok = wrap_with_rrc(&mut init, b"rrc-wrap", 0);
    let payload_len = u16::try_from(tok.len() - 16).unwrap();
    let (mut init2, mut acc2) = contexts();
    let tok2 = wrap_with_rrc(&mut init2, b"rrc-wrap", payload_len + 5);
    assert_eq!(
        unwrap(&mut acc2, &tok2).unwrap(),
        b"rrc-wrap",
        "rrc = len + k must rotate by k, not be ignored"
    );
}

#[test]
fn delegation_sets_the_deleg_flag() {
    let ck = gss_cksum(authenticator_checksum(None, initiator_flags(false, true), Some(b"cred")));
    let judged =
        process_checksum(&ck, false, None, Ok(Some("user@KERBER.TEST".to_string())), Ok(false))
            .unwrap();
    let (acc, _) = GssContext::accepted(facts(), false, judged);
    assert!(acc.delegated().is_some(), "delegated credential stored");
    assert_ne!(
        acc.inquire_context(0).flags & GSS_C_DELEG,
        0,
        "storing a delegated credential sets GSS_C_DELEG_FLAG"
    );
}

#[test]
fn bindings_hash_is_md5_of_their_encoding() {
    // MD5 of five zero words: no addresses and no application data.
    let empty = ChannelBindings::bnd_hash(Some(&bindings(b"")));
    assert_eq!(
        empty,
        [
            0x44, 0x10, 0x18, 0x52, 0x52, 0x08, 0x45, 0x77, 0x05, 0xbf, 0x09, 0xa8, 0xee, 0x3c,
            0x10, 0x93
        ]
    );
    assert_eq!(ChannelBindings::bnd_hash(None), vec![0u8; 16]);
    assert_ne!(ChannelBindings::bnd_hash(Some(&bindings(b"x"))), empty);
}

#[test]
fn tokens_find_their_messages() {
    let framed = gss_wrap_app(TOK_AP_REQ, b"ap-req");
    assert_eq!(ap_req_token(&framed), Ok((b"ap-req".to_vec(), false)));
    assert_eq!(ap_req_token(b"\x6e\x03abc"), Ok((b"\x6e\x03abc".to_vec(), true)));
    assert!(ap_req_token(&gss_wrap_app(TOK_AP_REP, b"x")).is_err());
    assert_eq!(ap_rep_token(&gss_wrap_app(TOK_AP_REP, b"rep")).unwrap(), b"rep");
    assert!(ap_rep_token(&gss_wrap_app(TOK_AP_REQ, b"rep")).is_err());
}

#[test]
fn authenticators_may_insist_on_bindings() {
    let opt = |v: u32| ApDatum::ApOptions(v.to_le_bytes().to_vec());
    assert_eq!(authenticator_cbt(&vec![opt(0x4000)]), Ok(true));
    assert_eq!(authenticator_cbt(&vec![opt(0)]), Ok(false));
    assert_eq!(authenticator_cbt(&vec![]), Ok(false));
    assert_eq!(authenticator_cbt(&vec![ApDatum::Other, ApDatum::IfRelevant(vec![opt(0x4000)])]), Ok(true));
    assert_eq!(
        authenticator_cbt(&vec![ApDatum::Unreadable("bad der".to_string())]),
        Err(Error::Inner("bad der".to_string()))
    );
}

#[test]
fn delegated_tickets_are_kept_as_they_were() {
    let user = PrincipalName { name_type: NT_PRINCIPAL, name_string: vec!["user".to_string()] };
    let ticket = Ticket {
        tkt_vno: 5,
        realm: REALM.to_string(),
        sname: PrincipalName::krbtgt(REALM),
        enc_part: EncryptedData { etype: 18, kvno: Some(1), cipher: vec![1, 2] },
    };
    let (info, t) = cred_info_for_deleg(DelegCred {
        ticket: ticket.clone(),
        session: session(),
        crealm: REALM.to_string(),
        cname: user.clone(),
        flags: 7,
        authtime: Some(10),
        starttime: None,
        endtime: Some(30),
        renew_till: None,
    });
    assert_eq!(info.sname, Some(PrincipalName::krbtgt(REALM)));
    let c = deleg_cache_entry(Some(info.clone()), Some(t)).unwrap();
    assert_eq!((c.cname, c.ticket_flags, c.key), (user, 7, session()));
    assert_eq!((c.authtime, c.starttime, c.endtime, c.renew_till), (10, 10, 30, 0));
    assert_eq!(c.ticket, ticket);
    assert_eq!(deleg_cache_entry(Some(info), None), Err(Error::Truncated));
    assert_eq!(deleg_cache_entry(None, Some(ticket)), Err(Error::Truncated));
}

#[test]
fn token_lengths_are_checked() {
    assert_eq!(token_length(&5u32.to_be_bytes()), Ok(5));
    assert_eq!(token_length(&[0; 4]), Err("bad token length 0".to_string()));
    assert_eq!(token_length(&MAX_TOKEN.to_be_bytes()), Ok(1024 * 1024));
    assert_eq!(
        token_length(&(MAX_TOKEN + 1).to_be_bytes()),
        Err("bad token length 1048577".to_string())
    );
    assert_eq!(token_frame(b"abc").unwrap(), b"\0\0\0\x03abc");
}

#[test]
fn three_leg_contexts_end_with_the_base_number() {
    let judged = process_checksum(&None, false, None, Ok(None), Ok(false)).unwrap();
    let (mut acc, owes) = GssContext::accepted(facts(), true, judged);
    assert!(owes && acc.is_dce_style());
    assert!(acc.ap_rep_key.is_some());
    let whole = |x: &Vec<u8>| Ok(x.clone());
    let says = |seq: u32, subkey: Option<EncryptionKey>| {
        move |_: &Vec<u8>| Ok(RepPart { seq_number: Some(seq), subkey: subkey.clone() })
    };
    let key = acc.ap_rep_key.clone().unwrap();
    let token = encrypt(&key, KU_AP_REP_ENC_PART, b"part");
    let base = u32::try_from(acc.send_seq).unwrap();
    let under = encrypt(&EncryptionKey { keytype: 18, keyvalue: vec![3; 32] }, 12, b"part");
    assert_eq!(
        acc.accept_dce(&under, whole, opening, says(base, None)),
        Err(Error::Integrity),
        "another key"
    );
    assert_eq!(
        acc.accept_dce(&token, whole, opening, says(base + 1, None)),
        Err(Error::Integrity),
        "another number"
    );
    assert_eq!(
        acc.accept_dce(&token, whole, opening, says(base, Some(session()))),
        Err(Error::Integrity),
        "a subkey"
    );
    assert!(acc.ap_rep_key.is_some());
    assert_eq!(acc.accept_dce(&token, whole, opening, says(base, None)), Ok(()));
    assert_eq!(
        acc.accept_dce(&token, whole, opening, says(base, None)),
        Err(Error::Truncated),
        "the third leg ends once"
    );
}

#[test]
fn replies_under_the_own_key_count_last() {
    let (mut init, _) = contexts();
    let ticket = EncryptionKey { keytype: 18, keyvalue: vec![7; 32] };
    let whole = |x: &Vec<u8>| Ok(x.clone());
    let plain = |p: &Vec<u8>| {
        assert_eq!(p, b"part");
        Ok(RepPart { seq_number: None, subkey: None })
    };
    let own = gss_wrap_app(TOK_AP_REP, &encrypt(&session(), 12, b"part"));
    assert_eq!(init.process_ap_rep(&own, &ticket, whole, opening, plain), Ok(()));
    assert_eq!(init.acceptor_subkey, None);
    let other = gss_wrap_app(TOK_AP_REP, &encrypt(&session(), 11, b"part"));
    assert_eq!(
        init.process_ap_rep(&other, &ticket, whole, opening, plain),
        Err(Error::Integrity)
    );
    let request = gss_wrap_app(TOK_AP_REQ, b"part");
    assert_eq!(
        init.process_ap_rep(&request, &ticket, whole, opening, plain),
        Err(Error::Truncated)
    );
    assert_eq!(
        init.process_ap_rep(b"", &ticket, whole, opening, plain),
        Err(Error::Truncated)
    );
}

#[test]
fn wrapping_hands_out_key_and_usage() {
    let (mut init, mut acc) = contexts();
    let seen = |key: &EncryptionKey, usage: u32, plain: &Vec<u8>| -> Result<Vec<u8>, Error> {
        assert_eq!(key.keyvalue, session().keyvalue);
        assert_eq!(usage, 24);
        assert_eq!(&plain[..2], b"hi");
        assert_eq!(plain.len(), 18);
        Ok(encrypt(key, usage, plain))
    };
    let tok = init.wrap(b"hi", &seen).unwrap();
    assert_eq!(unwrap_conf(&mut acc, &tok).unwrap(), (b"hi".to_vec(), true));
    let back = |_: &EncryptionKey, usage: u32, data: &Vec<u8>| -> Result<Vec<u8>, Error> {
        assert_eq!(usage, 22);
        Ok(checksum(&session(), usage, data))
    };
    let tok = acc.wrap_integ(b"yo", &back).unwrap();
    assert_eq!(unwrap_conf(&mut init, &tok).unwrap(), (b"yo".to_vec(), false));
}

#[test]
fn failed_wrap_keeps_the_number() {
    let (mut init, mut acc) = contexts();
    let before = init.send_seq;
    let broken =
        |_: &EncryptionKey, _: u32, _: &Vec<u8>| -> Result<Vec<u8>, Error> { Err(Error::Integrity) };
    assert!(matches!(init.wrap(b"x", &broken), Err(Error::Integrity)));
    assert!(matches!(init.wrap_integ(b"x", &broken), Err(Error::Integrity)));
    let long =
        |_: &EncryptionKey, _: u32, _: &Vec<u8>| -> Result<Vec<u8>, Error> { Ok(vec![0; 0x1_0000]) };
    assert!(matches!(init.wrap_integ(b"x", &long), Err(Error::Truncated)));
    assert_eq!(init.send_seq, before);
    let tok = wrap(&mut init, b"x");
    assert_eq!(init.send_seq, before + 1);
    assert_eq!(unwrap(&mut acc, &tok).unwrap(), b"x");
}

#[test]
fn unwrap_without_checksum_size_is_truncated() {
    let (mut init, mut acc) = contexts();
    let none = |_: &EncryptionKey| -> Option<usize> { None };
    let tok = wrap_integ(&mut init, b"x");
    assert!(matches!(
        acc.unwrap_conf(&tok, &none, &opening, &checking),
        Err(Error::Truncated)
    ));
    let eight = |_: &EncryptionKey| -> Option<usize> { Some(8) };
    assert!(matches!(
        acc.unwrap_conf(&tok, &eight, &opening, &checking),
        Err(Error::Truncated)
    ));
    assert_eq!(unwrap(&mut acc, &tok).unwrap(), b"x");
}

#[test]
fn signed_buffers_carry_associated_data() {
    let (mut init, mut acc) = contexts();
    let rows = || {
        iov(&[
            (IovType::Header, b""),
            (IovType::SignOnly, b"rpc-hdr"),
            (IovType::Data, b"body"),
            (IovType::Padding, b""),
            (IovType::Trailer, b""),
        ])
    };
    let mut v = rows();
    wrap_iov(&mut init, false, &mut v).unwrap();
    assert_eq!((v[1].data.as_slice(), v[2].data.as_slice()), (&b"rpc-hdr"[..], &b"body"[..]));
    let mut bad = v.clone();
    bad[1].data[0] ^= 1;
    let before = acc.clone();
    assert_eq!(unwrap_iov(&mut acc, &mut bad), Err(Error::Integrity));
    assert_eq!(acc, before, "a refused row changes nothing");
    unwrap_iov(&mut acc, &mut v).unwrap();
    assert_eq!((v[1].data.as_slice(), v[2].data.as_slice()), (&b"rpc-hdr"[..], &b"body"[..]));
}

#[test]
fn buffers_without_data_are_refused() {
    for conf in [true, false] {
        let (mut init, _) = contexts();
        let before = init.clone();
        let mut v = iov(&[(IovType::Header, b""), (IovType::Padding, b""), (IovType::Trailer, b"")]);
        assert_eq!(wrap_iov(&mut init, conf, &mut v), Err(Error::Truncated));
        assert_eq!(init, before);
    }
}

#[test]
fn exports_hold_the_whole_window() {
    let shapes = [KeyShape { keytype: 18, len: 32 }];
    let (mut init, mut acc) = contexts();
    let mut tokens = Vec::new();
    for _ in 0..100 {
        let w = wrap(&mut init, b"m");
        unwrap(&mut acc, &w).unwrap();
        tokens.push(w);
    }
    let out = acc.export_sec_context().unwrap();
    let mut again = GssContext::import_sec_context(&out, &shapes).unwrap();
    assert_eq!((again.recv_seq, &again.recv_window), (acc.recv_seq, &acc.recv_window));
    assert_eq!(again.recv_window.len(), 100);
    for w in &tokens {
        assert_eq!(unwrap(&mut again, w), Err(Error::Sequence));
    }
    for n in [0, 1, out.len() / 2, out.len() - 1] {
        assert!(GssContext::import_sec_context(&out[..n], &shapes).is_err(), "cut at {n}");
    }
    let mut longer = out.clone();
    longer.push(0);
    assert!(GssContext::import_sec_context(&longer, &shapes).is_err(), "one octet more");
}
