//! Mechanism OIDs, context flags, and the framing of tokens.

use crate::bytes::{append, copy, copy_range, put_be16, be16};
use crate::der::{element, take_der_slice};
use crate::gss::error::Error;
use vstd::prelude::*;

verus! {

/// Kerberos V5, 1.2.840.113554.1.2.2.
pub const KRB5_OID: [u8; 9] = [0x2a, 0x86, 0x48, 0x86, 0xf7, 0x12, 0x01, 0x02, 0x02];

/// SPNEGO, 1.3.6.1.5.5.2.
pub const SPNEGO_OID: [u8; 6] = [0x2b, 0x06, 0x01, 0x05, 0x05, 0x02];

/// Checksum type in the AP-REQ authenticator.
pub const GSS_CHECKSUM_TYPE: i32 = 0x8003;

/// Delegation.
pub const GSS_C_DELEG: u32 = 1;

/// Mutual authentication.
pub const GSS_C_MUTUAL: u32 = 2;

/// Replay detection.
pub const GSS_C_REPLAY: u32 = 4;

/// Sequence checking.
pub const GSS_C_SEQUENCE: u32 = 8;

/// Confidentiality.
pub const GSS_C_CONF: u32 = 16;

/// Integrity.
pub const GSS_C_INTEG: u32 = 32;

/// Per-message protection is available.
pub const GSS_C_PROT_READY: u32 = 128;

/// The context can be exported.
pub const GSS_C_TRANS: u32 = 256;

/// The channel is bound.
pub const GSS_C_CHANNEL_BOUND: u32 = 0x0800;

/// Three legs.
pub const GSS_C_DCE: u32 = 0x1000;

/// Identification only.
pub const GSS_C_IDENTIFY: u32 = 0x2000;

/// Extended errors.
pub const GSS_C_EXTENDED_ERROR: u32 = 0x4000;

/// The length field for `n` octets. A length that does not fit in two octets
/// is written as the greatest that does.
pub open spec fn length_octets(n: nat) -> Seq<u8> {
    if n < 128 {
        seq![n as u8]
    } else if n < 256 {
        seq![0x81, n as u8]
    } else if n < 0x1_0000 {
        seq![0x82u8] + be16(n as u16)
    } else {
        seq![0x82u8] + be16(0xffff)
    }
}

/// An element with its tag and length.
#[verifier::opaque]
pub open spec fn tlv(tag: u8, body: Seq<u8>) -> Seq<u8> {
    seq![tag] + length_octets(body.len()) + body
}

/// Makes an element with its tag and length.
pub fn der_tlv(tag: u8, body: &[u8]) -> (r: Vec<u8>)
    ensures
        r@ == tlv(tag, body@),
{
    let mut out: Vec<u8> = Vec::new();
    out.push(tag);
    let n: usize = body.len();
    if n < 128 {
        out.push(n as u8);
    } else if n < 256 {
        out.push(0x81);
        out.push(n as u8);
    } else if n < 0x1_0000 {
        out.push(0x82);
        put_be16(&mut out, n as u16);
    } else {
        out.push(0x82);
        put_be16(&mut out, 0xffff);
    }
    append(&mut out, body);
    proof {
        reveal(tlv);
        assert(out@ =~= tlv(tag, body@));
    }
    out
}

/// An element reads back as it was made, whatever stands behind it.
pub proof fn lemma_element_of_tlv(tag: u8, body: Seq<u8>, rest: Seq<u8>)
    requires
        body.len() < 0x1_0000,
    ensures
        ({
            let s = tlv(tag, body) + rest;
            let h = length_octets(body.len()).len();
            &&& element(s) == Some((tag, (1 + h) as int, (1 + h + body.len()) as int))
            &&& s.subrange((1 + h) as int, (1 + h + body.len()) as int) == body
            &&& tlv(tag, body).len() == 1 + h + body.len()
            &&& 1 <= h <= 3
            &&& tlv(tag, body)[0] == tag
            &&& body.len() < 128 ==> tlv(tag, body)[1] == body.len()
        }),
{
    reveal(tlv);
    let s = tlv(tag, body) + rest;
    let n = body.len();
    let h = length_octets(n).len();
    assert(s[0] == tag);
    if n < 128 {
        assert(s[1] == n as u8);
    } else if n < 256 {
        assert(s[1] == 0x81 && s[2] == n as u8);
    } else {
        assert(s[1] == 0x82);
        assert(be16(n as u16)[0] == s[2]);
        assert(be16(n as u16)[1] == s[3]);
        assert(256 * (n / 256) + n % 256 == n);
    }
    assert(s.subrange((1 + h) as int, (1 + h + n) as int) =~= body);
}

/// The contents of an element that is all of `s`.
pub proof fn lemma_element_of_whole(tag: u8, body: Seq<u8>)
    requires
        body.len() < 0x1_0000,
    ensures
        ({
            let s = tlv(tag, body);
            let h = length_octets(body.len()).len();
            &&& element(s) == Some((tag, (1 + h) as int, s.len() as int))
            &&& s.subrange((1 + h) as int, s.len() as int) == body
            &&& s.len() == 1 + h + body.len()
            &&& 1 <= h <= 3
            &&& s[0] == tag
            &&& body.len() < 128 ==> s[1] == body.len()
        }),
{
    lemma_element_of_tlv(tag, body, Seq::empty());
    assert(tlv(tag, body) + Seq::<u8>::empty() =~= tlv(tag, body));
}

/// The mechanism OID of a framed token and what stands behind it.
pub open spec fn oid_and_rest(token: Seq<u8>) -> Option<(Seq<u8>, Seq<u8>)> {
    match element(token) {
        None => None,
        Some((tag, a, b)) => {
            let body = token.subrange(a, b);
            if tag != 0x60 || body.len() < 2 || body[0] != 0x06 || 2 + body[1] > body.len() {
                None
            } else {
                Some((body.subrange(2, 2 + body[1]), body.skip(2 + body[1])))
            }
        },
    }
}

/// Where the OID and what stands behind it are in a framed token: start of
/// the OID, its end, and the end of the rest.
pub fn gss_oid_body(token: &[u8]) -> (r: Result<(usize, usize, usize), Error>)
    ensures
        match oid_and_rest(token@) {
            Some(p) => r matches Ok(e) && e.0 <= e.1 <= e.2 <= token.len() && token@.subrange(
                e.0 as int,
                e.1 as int,
            ) == p.0 && token@.subrange(e.1 as int, e.2 as int) == p.1,
            None => r matches Err(e) && e == Error::Truncated,
        },
{
    proof {
        assert(token@.subrange(0, token@.len() as int) =~= token@);
    }
    match take_der_slice(token, 0, token.len()) {
        None => Err(Error::Truncated),
        Some((tag, a, b)) => {
            if tag != 0x60 || b - a < 2 || token[a] != 0x06 {
                return Err(Error::Truncated);
            }
            let n: usize = token[a + 1] as usize;
            if b - a - 2 < n {
                return Err(Error::Truncated);
            }
            proof {
                let body = token@.subrange(a as int, b as int);
                assert(token@.subrange(a + 2, a + 2 + n) =~= body.subrange(2, 2 + n));
                assert(token@.subrange(a + 2 + n, b as int) =~= body.skip(2 + n));
            }
            Ok((a + 2, a + 2 + n, b))
        },
    }
}

/// A Kerberos token in its frame.
pub open spec fn wrapped_app(tok_id: Seq<u8>, inner: Seq<u8>) -> Seq<u8> {
    tlv(0x60, tlv(0x06, KRB5_OID@) + tok_id + inner)
}

/// Puts a Kerberos token in its frame.
pub fn gss_wrap_app(tok_id: [u8; 2], inner: &[u8]) -> (r: Vec<u8>)
    ensures
        r@ == wrapped_app(tok_id@, inner@),
{
    let mut body = der_tlv(0x06, &KRB5_OID);
    append(&mut body, &tok_id);
    append(&mut body, inner);
    der_tlv(0x60, body.as_slice())
}

/// Takes a token out of its frame.
pub fn gss_unwrap_app(token: &[u8]) -> (r: Result<Vec<u8>, Error>)
    ensures
        match oid_and_rest(token@) {
            Some(p) => r matches Ok(v) && v@ == p.1,
            None => r matches Err(e) && e == Error::Truncated,
        },
{
    match gss_oid_body(token) {
        Err(e) => Err(e),
        Ok((a, b, c)) => Ok(copy_range(token, b, c)),
    }
}

/// A per-message token out of its frame, where it has one.
pub open spec fn message(token: Seq<u8>) -> Option<Seq<u8>> {
    if token.len() > 0 && token[0] == 0x60 {
        match oid_and_rest(token) {
            Some(p) => Some(p.1),
            None => None,
        }
    } else {
        Some(token)
    }
}

/// Takes a per-message token out of its frame, where it has one.
pub fn message_token(token: &[u8]) -> (r: Result<Vec<u8>, Error>)
    ensures
        match message(token@) {
            Some(m) => r matches Ok(v) && v@ == m,
            None => r matches Err(e) && e == Error::Truncated,
        },
{
    if token.len() > 0 && token[0] == 0x60 {
        gss_unwrap_app(token)
    } else {
        Ok(copy(token))
    }
}

/// A framed token names Kerberos, and comes out of its frame as it went in,
/// as long as its length can be written.
pub proof fn law_frame_round_trip(tok_id: Seq<u8>, inner: Seq<u8>)
    requires
        tok_id.len() == 2,
        inner.len() <= 0xffff - 13,
    ensures
        oid_and_rest(wrapped_app(tok_id, inner)) == Some((KRB5_OID@, tok_id + inner)),
{
    let oid = tlv(0x06, KRB5_OID@);
    let body = oid + tok_id + inner;
    lemma_element_of_whole(0x06, KRB5_OID@);
    assert(oid.len() == 11);
    lemma_element_of_whole(0x60, body);
    assert(body[0] == 0x06);
    assert(body[1] == 9);
    assert(body.subrange(2, 11) =~= KRB5_OID@);
    assert(body.skip(11) =~= tok_id + inner);
}

} // verus!
