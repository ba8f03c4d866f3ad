use krb5_kdc::audit::{
    enctype_name, ktypes2str, make_tkt_id, new_req_id, rep_etypes2str, REQID_CHARS,
};
use krb5_kdc::audit::record::{s4u_user, s4u_word, tgs_client_name, S4uKind};
use krb5_kdc::msg::{PaData, PA_FOR_USER};
use sha2::{Digest, Sha256};

const HEX_UP: &[u8; 16] = b"0123456789ABCDEF";

#[test]
fn tkt_id_is_uppercase_sha256_of_ciphertext() {
    let id = make_tkt_id(b"cipher");
    assert_eq!(id.len(), 64);
    assert!(id.chars().all(|c| c.is_ascii_hexdigit() && !c.is_ascii_lowercase()));
    assert_eq!(id, make_tkt_id(b"cipher"));
    assert_ne!(id, make_tkt_id(b"other"));
}

#[test]
fn req_id_is_mit_random_string_len() {
    let id = new_req_id();
    assert_eq!(id.len(), REQID_CHARS);
    assert!(id.chars().all(|c| c.is_ascii_alphanumeric()));
}

#[test]
fn ktypes_and_rep_match_mit_format() {
    let k = ktypes2str(&[18, 17]);
    assert_eq!(k, "2 etypes {aes256-cts-hmac-sha1-96(18), aes128-cts-hmac-sha1-96(17)}");
    let r = rep_etypes2str(20, Some(20), Some(18));
    assert_eq!(
        r,
        "etypes {rep=aes256-cts-hmac-sha384-192(20), tkt=aes256-cts-hmac-sha384-192(20), ses=aes256-cts-hmac-sha1-96(18)}"
    );
    assert!(enctype_name(16).starts_with("DEPRECATED:"));
    assert!(enctype_name(1).starts_with("UNSUPPORTED:"));
    assert_eq!(enctype_name(6), "DEPRECATED:des3-cbc-raw");
    assert_eq!(enctype_name(24), "DEPRECATED:arcfour-hmac-exp");
}

#[test]
fn tkt_id_matches_independent_sha256() {
    let cipher = b"cipher";
    let hash = Sha256::digest(cipher);
    let mut expect = String::with_capacity(64);
    for b in hash {
        expect.push(HEX_UP[usize::from(b >> 4)] as char);
        expect.push(HEX_UP[usize::from(b & 0x0f)] as char);
    }
    assert_eq!(make_tkt_id(cipher), expect);
}

#[test]
fn impersonated_users_are_named() {
    let pa = |ty: i32| PaData { padata_type: ty, padata_value: Vec::new() };
    let v = [pa(1), pa(PA_FOR_USER), pa(PA_FOR_USER)];
    let joe = || Some("joe@KERBER.TEST".to_string());
    assert_eq!(s4u_user(&v, &[joe(), None, joe()]), "joe@KERBER.TEST");
    assert_eq!(s4u_user(&v, &[joe(), None, None]), "<unknown>");
    assert_eq!(s4u_word(S4uKind::Transition), "PROTOCOL-TRANSITION");
    assert_eq!(s4u_word(S4uKind::Delegation), "CONSTRAINED-DELEGATION");
}

#[test]
fn anonymous_replies_are_logged_by_their_header() {
    let anon = "WELLKNOWN/ANONYMOUS@WELLKNOWN:ANONYMOUS";
    assert_eq!(tgs_client_name("joe@KERBER.TEST", None), "joe@KERBER.TEST");
    assert_eq!(tgs_client_name(anon, Some("joe@KERBER.TEST")), "joe@KERBER.TEST");
    assert_eq!(tgs_client_name(anon, None), "<unknown client>");
}
