//! SPNEGO: the initial token, the response, and the token inside.

use crate::bytes::{append, copy, copy_range, slice_eq};
use crate::der::{element, take_der_slice};
use crate::gss::error::Error;
use crate::gss::oid::{
    der_tlv, gss_oid_body, gss_wrap_app, lemma_element_of_tlv, lemma_element_of_whole,
    oid_and_rest, tlv, wrapped_app, KRB5_OID, SPNEGO_OID,
};
use vstd::prelude::*;
use vstd::slice::slice_subrange;

verus! {

/// Token id of an AP-REQ.
pub const TOK_AP_REQ: [u8; 2] = [0x01, 0x00];

/// Token id of an AP-REP.
pub const TOK_AP_REP: [u8; 2] = [0x02, 0x00];

/// The initial token that offers Kerberos alone.
pub open spec fn init_token(krb_token: Seq<u8>) -> Seq<u8> {
    let mech_types = tlv(0xa0, tlv(0x30, tlv(0x06, KRB5_OID@)));
    let mech_token = tlv(0xa2, tlv(0x04, krb_token));
    let neg = tlv(0xa0, tlv(0x30, mech_types + mech_token));
    tlv(0x60, tlv(0x06, SPNEGO_OID@) + neg)
}

/// Makes the initial token that offers Kerberos alone.
pub fn spnego_init(krb_token: &[u8]) -> (r: Vec<u8>)
    ensures
        r@ == init_token(krb_token@),
{
    let oid_krb = der_tlv(0x06, &KRB5_OID);
    let mech_seq = der_tlv(0x30, oid_krb.as_slice());
    let mut seq = der_tlv(0xa0, mech_seq.as_slice());
    let octets = der_tlv(0x04, krb_token);
    let mech_token = der_tlv(0xa2, octets.as_slice());
    append(&mut seq, mech_token.as_slice());
    let whole = der_tlv(0x30, seq.as_slice());
    let neg = der_tlv(0xa0, whole.as_slice());
    let mut app = der_tlv(0x06, &SPNEGO_OID);
    append(&mut app, neg.as_slice());
    der_tlv(0x60, app.as_slice())
}

/// The contents of `s` where it is an element with tag `tag`, else `s`
/// itself; nothing where the element runs past the end.
pub open spec fn opened(s: Seq<u8>, tag: u8) -> Option<Seq<u8>> {
    if s.len() > 0 && s[0] == tag {
        match element(s) {
            Some((t, a, b)) => Some(s.subrange(a, b)),
            None => None,
        }
    } else {
        Some(s)
    }
}

/// Opens `b[from..to]` where it is an element with tag `tag`.
fn open_range(b: &[u8], from: usize, to: usize, tag: u8) -> (r: Option<(usize, usize)>)
    requires
        from <= to <= b.len(),
    ensures
        match opened(b@.subrange(from as int, to as int), tag) {
            Some(s) => r matches Some(e) && from <= e.0 <= e.1 <= to && b@.subrange(
                e.0 as int,
                e.1 as int,
            ) == s,
            None => r is None,
        },
{
    let ghost s = b@.subrange(from as int, to as int);
    if from < to && b[from] == tag {
        match take_der_slice(b, from, to) {
            Some((t, x, y)) => {
                proof {
                    assert(b@.subrange(x as int, y as int) =~= s.subrange(x - from, y - from));
                }
                Some((x, y))
            },
            None => None,
        }
    } else {
        Some((from, to))
    }
}

/// The mechanism token in the row of elements `s`: the first element tagged
/// `[2]`, which is looked for as long as more than two octets are left.
pub open spec fn mech_token_in(s: Seq<u8>) -> Option<Seq<u8>>
    decreases s.len(),
{
    if s.len() <= 2 {
        None
    } else {
        match element(s) {
            None => None,
            Some((t, a, b)) => if t == 0xa2 {
                opened(s.subrange(a, b), 0x04)
            } else if 0 < b <= s.len() {
                mech_token_in(s.skip(b))
            } else {
                None
            },
        }
    }
}

/// The mechanism token of a negotiation.
pub open spec fn mech_token_of(neg: Seq<u8>) -> Option<Seq<u8>> {
    match element(neg) {
        None => None,
        Some((t, a, b)) => match opened(neg.subrange(a, b), 0x30) {
            None => None,
            Some(inner) => mech_token_in(inner),
        },
    }
}

/// The Kerberos token inside `token`: that of a negotiation, or `token`
/// itself where it is a bare Kerberos token in its frame.
pub open spec fn inner_token(token: Seq<u8>) -> Option<Seq<u8>> {
    match oid_and_rest(token) {
        None => None,
        Some((oid, rest)) => if rest.len() > 0 && rest[0] == 0xa0 {
            mech_token_of(rest)
        } else {
            Some(token)
        },
    }
}

/// Finds the mechanism token of the negotiation `b[from..to]`.
fn find_mech_token(b: &[u8], from: usize, to: usize) -> (r: Option<(usize, usize)>)
    requires
        from <= to <= b.len(),
    ensures
        match mech_token_of(b@.subrange(from as int, to as int)) {
            Some(s) => r matches Some(e) && e.0 <= e.1 <= b.len() && b@.subrange(
                e.0 as int,
                e.1 as int,
            ) == s,
            None => r is None,
        },
{
    let (x, y): (usize, usize) = match take_der_slice(b, from, to) {
        Some((t, x, y)) => (x, y),
        None => {
            return None;
        },
    };
    proof {
        assert(b@.subrange(from as int, to as int).subrange(x - from, y - from) =~= b@.subrange(
            x as int,
            y as int,
        ));
    }
    let (lo, hi): (usize, usize) = match open_range(b, x, y, 0x30) {
        Some(e) => e,
        None => {
            return None;
        },
    };
    let ghost inner = b@.subrange(lo as int, hi as int);
    let mut i: usize = lo;
    while hi - i > 2
        invariant
            lo <= i <= hi <= b.len(),
            inner == b@.subrange(lo as int, hi as int),
            mech_token_of(b@.subrange(from as int, to as int)) == mech_token_in(inner),
            mech_token_in(inner) == mech_token_in(b@.subrange(i as int, hi as int)),
        decreases hi - i,
    {
        let ghost s = b@.subrange(i as int, hi as int);
        match take_der_slice(b, i, hi) {
            None => {
                return None;
            },
            Some((t, p, q)) => {
                proof {
                    assert(s.subrange(p - i, q - i) =~= b@.subrange(p as int, q as int));
                    assert(s.skip(q - i) =~= b@.subrange(q as int, hi as int));
                }
                if t == 0xa2 {
                    return open_range(b, p, q, 0x04);
                }
                i = q;
            },
        }
    }
    None
}

/// The Kerberos token inside a negotiation, or the token itself.
pub fn spnego_inner(token: &[u8]) -> (r: Result<&[u8], Error>)
    ensures
        match inner_token(token@) {
            Some(s) => r matches Ok(v) && v@ == s,
            None => r matches Err(e) && e == Error::Truncated,
        },
{
    match gss_oid_body(token) {
        Err(e) => Err(e),
        Ok((a, b, c)) => {
            if b < c && token[b] == 0xa0 {
                match find_mech_token(token, b, c) {
                    Some((x, y)) => Ok(slice_subrange(token, x, y)),
                    None => Err(Error::Truncated),
                }
            } else {
                Ok(token)
            }
        },
    }
}

/// Whether a token is a negotiation in its frame.
pub open spec fn names_spnego(token: Seq<u8>) -> bool {
    oid_and_rest(token) matches Some(p) && p.0 == SPNEGO_OID@
}

/// Whether a token is a negotiation in its frame.
pub fn is_spnego(token: &[u8]) -> (r: bool)
    ensures
        r == names_spnego(token@),
{
    match gss_oid_body(token) {
        Err(_) => false,
        Ok((a, b, c)) => slice_eq(slice_subrange(token, a, b), &SPNEGO_OID),
    }
}

/// What an initial token holds.
#[verifier::ext_equal]
pub struct NegView {
    /// The list of mechanisms, encoded.
    pub mech_list: Seq<u8>,
    /// The mechanism token.
    pub mech_token: Seq<u8>,
    /// The checksum over the list, where there is one.
    pub mic: Option<Seq<u8>>,
}

/// What an initial token holds.
#[derive(Clone, Debug, PartialEq, Eq)]
pub struct NegInit {
    /// The list of mechanisms, encoded.
    pub mech_list_der: Vec<u8>,
    /// The mechanism token.
    pub mech_token: Vec<u8>,
    /// The checksum over the list, where there is one.
    pub mic: Option<Vec<u8>>,
}

/// The octets of an optional list.
pub open spec fn octets_of(v: Option<Vec<u8>>) -> Option<Seq<u8>> {
    match v {
        Some(x) => Some(x@),
        None => None,
    }
}

impl View for NegInit {
    type V = NegView;

    open spec fn view(&self) -> NegView {
        NegView {
            mech_list: self.mech_list_der@,
            mech_token: self.mech_token@,
            mic: octets_of(self.mic),
        }
    }
}

/// The fields in the row of elements `s`, beside those read before it: no
/// field may stand there twice, and list and token must be there.
pub open spec fn neg_fields(
    s: Seq<u8>,
    list: Option<Seq<u8>>,
    tok: Option<Seq<u8>>,
    mic: Option<Seq<u8>>,
) -> Option<NegView>
    decreases s.len(),
{
    if s.len() == 0 {
        if list is Some && tok is Some {
            Some(NegView { mech_list: list->0, mech_token: tok->0, mic })
        } else {
            None
        }
    } else {
        match element(s) {
            None => None,
            Some((t, a, b)) => {
                let body = s.subrange(a, b);
                if !(0 < b <= s.len()) {
                    None
                } else if t == 0xa0 {
                    if list is Some {
                        None
                    } else {
                        neg_fields(s.skip(b), Some(body), tok, mic)
                    }
                } else if t == 0xa2 {
                    if tok is Some || opened(body, 0x04) is None {
                        None
                    } else {
                        neg_fields(s.skip(b), list, opened(body, 0x04), mic)
                    }
                } else if t == 0xa3 {
                    if mic is Some || opened(body, 0x04) is None {
                        None
                    } else {
                        neg_fields(s.skip(b), list, tok, opened(body, 0x04))
                    }
                } else {
                    neg_fields(s.skip(b), list, tok, mic)
                }
            },
        }
    }
}

/// The row of elements inside `s`, an element with tag `tag` that may hold a
/// sequence.
pub open spec fn row_inside(s: Seq<u8>, tag: u8) -> Option<Seq<u8>> {
    if s.len() == 0 || s[0] != tag {
        None
    } else {
        match element(s) {
            None => None,
            Some((t, a, b)) => opened(s.subrange(a, b), 0x30),
        }
    }
}

/// What an initial token holds.
pub open spec fn neg_init(token: Seq<u8>) -> Option<NegView> {
    match oid_and_rest(token) {
        None => None,
        Some((oid, rest)) => if oid != SPNEGO_OID@ {
            None
        } else {
            match row_inside(rest, 0xa0) {
                None => None,
                Some(row) => neg_fields(row, None, None, None),
            }
        },
    }
}

/// Finds the row of elements inside `b[from..to]`.
fn find_row(b: &[u8], from: usize, to: usize, tag: u8) -> (r: Option<(usize, usize)>)
    requires
        from <= to <= b.len(),
    ensures
        match row_inside(b@.subrange(from as int, to as int), tag) {
            Some(s) => r matches Some(e) && e.0 <= e.1 <= b.len() && b@.subrange(
                e.0 as int,
                e.1 as int,
            ) == s,
            None => r is None,
        },
{
    if from >= to || b[from] != tag {
        return None;
    }
    match take_der_slice(b, from, to) {
        None => None,
        Some((t, x, y)) => {
            proof {
                assert(b@.subrange(from as int, to as int).subrange(x - from, y - from)
                    =~= b@.subrange(x as int, y as int));
            }
            open_range(b, x, y, 0x30)
        },
    }
}

/// Reads an initial token.
pub fn parse_neg_init(token: &[u8]) -> (r: Result<NegInit, Error>)
    ensures
        match neg_init(token@) {
            Some(v) => r matches Ok(n) && n@ == v,
            None => r matches Err(e) && e == Error::Truncated,
        },
{
    let (a, b, c): (usize, usize, usize) = match gss_oid_body(token) {
        Err(e) => {
            return Err(e);
        },
        Ok(e) => e,
    };
    if !slice_eq(slice_subrange(token, a, b), &SPNEGO_OID) {
        return Err(Error::Truncated);
    }
    let (lo, hi): (usize, usize) = match find_row(token, b, c, 0xa0) {
        Some(e) => e,
        None => {
            return Err(Error::Truncated);
        },
    };
    let ghost row = token@.subrange(lo as int, hi as int);
    let mut list: Option<Vec<u8>> = None;
    let mut tok: Option<Vec<u8>> = None;
    let mut mic: Option<Vec<u8>> = None;
    let mut i: usize = lo;
    while i < hi
        invariant
            lo <= i <= hi <= token.len(),
            row == token@.subrange(lo as int, hi as int),
            neg_init(token@) == neg_fields(row, None, None, None),
            neg_fields(row, None, None, None) == neg_fields(
                token@.subrange(i as int, hi as int),
                octets_of(list),
                octets_of(tok),
                octets_of(mic),
            ),
        decreases hi - i,
    {
        let ghost s = token@.subrange(i as int, hi as int);
        match take_der_slice(token, i, hi) {
            None => {
                return Err(Error::Truncated);
            },
            Some((t, p, q)) => {
                proof {
                    assert(s.subrange(p - i, q - i) =~= token@.subrange(p as int, q as int));
                    assert(s.skip(q - i) =~= token@.subrange(q as int, hi as int));
                }
                if t == 0xa0 {
                    if list.is_some() {
                        return Err(Error::Truncated);
                    }
                    list = Some(copy_range(token, p, q));
                } else if t == 0xa2 {
                    if tok.is_some() {
                        return Err(Error::Truncated);
                    }
                    match open_range(token, p, q, 0x04) {
                        Some((x, y)) => {
                            tok = Some(copy_range(token, x, y));
                        },
                        None => {
                            return Err(Error::Truncated);
                        },
                    }
                } else if t == 0xa3 {
                    if mic.is_some() {
                        return Err(Error::Truncated);
                    }
                    match open_range(token, p, q, 0x04) {
                        Some((x, y)) => {
                            mic = Some(copy_range(token, x, y));
                        },
                        None => {
                            return Err(Error::Truncated);
                        },
                    }
                }
                i = q;
            },
        }
    }
    match (list, tok) {
        (Some(mech_list_der), Some(mech_token)) => Ok(NegInit { mech_list_der, mech_token, mic }),
        _ => Err(Error::Truncated),
    }
}

/// Whether Kerberos is among the OIDs in the row of elements `s`; nothing
/// where one of them cannot be read.
pub open spec fn row_has_krb5(s: Seq<u8>) -> Option<bool>
    decreases s.len(),
{
    if s.len() == 0 {
        Some(false)
    } else {
        match element(s) {
            None => None,
            Some((t, a, b)) => if !(0 < b <= s.len()) {
                None
            } else {
                match row_has_krb5(s.skip(b)) {
                    None => None,
                    Some(x) => Some(x || (t == 0x06 && s.subrange(a, b) == KRB5_OID@)),
                }
            },
        }
    }
}

/// Whether a list of mechanisms has Kerberos in it.
pub open spec fn list_has_krb5(list: Seq<u8>) -> Option<bool> {
    match opened(list, 0x30) {
        None => None,
        Some(row) => row_has_krb5(row),
    }
}

/// Whether a list of mechanisms has Kerberos in it.
pub fn mech_list_has_krb5(list: &[u8]) -> (r: Result<bool, Error>)
    ensures
        match list_has_krb5(list@) {
            Some(x) => r matches Ok(y) && x == y,
            None => r matches Err(e) && e == Error::Truncated,
        },
{
    proof {
        assert(list@.subrange(0, list@.len() as int) =~= list@);
    }
    let (lo, hi): (usize, usize) = match open_range(list, 0, list.len(), 0x30) {
        Some(e) => e,
        None => {
            return Err(Error::Truncated);
        },
    };
    let ghost row = list@.subrange(lo as int, hi as int);
    let mut found: bool = false;
    let mut i: usize = lo;
    while i < hi
        invariant
            lo <= i <= hi <= list.len(),
            row == list@.subrange(lo as int, hi as int),
            list_has_krb5(list@) == row_has_krb5(row),
            row_has_krb5(row) == (match row_has_krb5(list@.subrange(i as int, hi as int)) {
                Some(x) => Some(x || found),
                None => None::<bool>,
            }),
        decreases hi - i,
    {
        let ghost s = list@.subrange(i as int, hi as int);
        match take_der_slice(list, i, hi) {
            None => {
                return Err(Error::Truncated);
            },
            Some((t, p, q)) => {
                proof {
                    assert(s.subrange(p - i, q - i) =~= list@.subrange(p as int, q as int));
                    assert(s.skip(q - i) =~= list@.subrange(q as int, hi as int));
                }
                if t == 0x06 && slice_eq(slice_subrange(list, p, q), &KRB5_OID) {
                    found = true;
                }
                i = q;
            },
        }
    }
    Ok(found)
}

/// The state of a negotiation that is complete.
pub const SPNEGO_ACCEPT_COMPLETED: u8 = 0;

/// An optional octet string under tag `tag`.
pub open spec fn octet_field(tag: u8, v: Option<Seq<u8>>) -> Seq<u8> {
    match v {
        Some(s) => tlv(tag, tlv(0x04, s)),
        None => Seq::empty(),
    }
}

/// A response.
pub open spec fn neg_resp(
    state: u8,
    mech: Seq<u8>,
    response: Option<Seq<u8>>,
    mic: Option<Seq<u8>>,
) -> Seq<u8> {
    tlv(
        0xa1,
        tlv(
            0x30,
            tlv(0xa0, seq![0x0a, 0x01, state]) + tlv(0xa1, tlv(0x06, mech)) + octet_field(
                0xa2,
                response,
            ) + octet_field(0xa3, mic),
        ),
    )
}

/// The contents of an optional slice.
pub open spec fn slice_view(v: Option<&[u8]>) -> Option<Seq<u8>> {
    match v {
        Some(s) => Some(s@),
        None => None,
    }
}

/// Makes a response.
pub fn encode_neg_resp(
    state: u8,
    mech: &[u8],
    response: Option<&[u8]>,
    mic: Option<&[u8]>,
) -> (r: Vec<u8>)
    ensures
        r@ == neg_resp(state, mech@, slice_view(response), slice_view(mic)),
{
    let st: Vec<u8> = vec![0x0a, 0x01, state];
    proof {
        assert(st@ =~= seq![0x0au8, 0x01u8, state]);
    }
    let mut seq = der_tlv(0xa0, st.as_slice());
    let oid = der_tlv(0x06, mech);
    let mech_der = der_tlv(0xa1, oid.as_slice());
    append(&mut seq, mech_der.as_slice());
    let ghost head = seq@;
    match response {
        Some(r) => {
            let o = der_tlv(0x04, r);
            let f = der_tlv(0xa2, o.as_slice());
            append(&mut seq, f.as_slice());
        },
        None => {
            proof {
                assert(head + Seq::<u8>::empty() =~= head);
            }
        },
    }
    let ghost head2 = seq@;
    match mic {
        Some(m) => {
            let o = der_tlv(0x04, m);
            let f = der_tlv(0xa3, o.as_slice());
            append(&mut seq, f.as_slice());
        },
        None => {
            proof {
                assert(head2 + Seq::<u8>::empty() =~= head2);
            }
        },
    }
    let whole = der_tlv(0x30, seq.as_slice());
    der_tlv(0xa1, whole.as_slice())
}

/// The Kerberos token of a negotiation in its frame: put into one where it
/// has none.
pub fn mech_token_as_gss(mech_token: &[u8]) -> (r: Vec<u8>)
    ensures
        r@ == (if mech_token@.len() > 0 && mech_token@[0] == 0x60 {
            mech_token@
        } else {
            wrapped_app(TOK_AP_REQ@, mech_token@)
        }),
{
    if mech_token.len() > 0 && mech_token[0] == 0x60 {
        copy(mech_token)
    } else {
        gss_wrap_app(TOK_AP_REQ, mech_token)
    }
}

/// The checksum in the row of elements `s`: the first element tagged `[3]`.
pub open spec fn mic_in(s: Seq<u8>) -> Option<Seq<u8>>
    decreases s.len(),
{
    if s.len() == 0 {
        None
    } else {
        match element(s) {
            None => None,
            Some((t, a, b)) => if t == 0xa3 {
                opened(s.subrange(a, b), 0x04)
            } else if 0 < b <= s.len() {
                mic_in(s.skip(b))
            } else {
                None
            },
        }
    }
}

/// The checksum of a response.
pub open spec fn resp_mic(token: Seq<u8>) -> Option<Seq<u8>> {
    match row_inside(token, 0xa1) {
        None => None,
        Some(row) => mic_in(row),
    }
}

/// Reads the checksum of a response.
pub fn parse_neg_resp_mic(token: &[u8]) -> (r: Result<Vec<u8>, Error>)
    ensures
        match resp_mic(token@) {
            Some(s) => r matches Ok(v) && v@ == s,
            None => r matches Err(e) && e == Error::Truncated,
        },
{
    proof {
        assert(token@.subrange(0, token@.len() as int) =~= token@);
    }
    let (lo, hi): (usize, usize) = match find_row(token, 0, token.len(), 0xa1) {
        Some(e) => e,
        None => {
            return Err(Error::Truncated);
        },
    };
    let ghost row = token@.subrange(lo as int, hi as int);
    let mut i: usize = lo;
    while i < hi
        invariant
            lo <= i <= hi <= token.len(),
            row == token@.subrange(lo as int, hi as int),
            resp_mic(token@) == mic_in(row),
            mic_in(row) == mic_in(token@.subrange(i as int, hi as int)),
        decreases hi - i,
    {
        let ghost s = token@.subrange(i as int, hi as int);
        match take_der_slice(token, i, hi) {
            None => {
                return Err(Error::Truncated);
            },
            Some((t, p, q)) => {
                proof {
                    assert(s.subrange(p - i, q - i) =~= token@.subrange(p as int, q as int));
                    assert(s.skip(q - i) =~= token@.subrange(q as int, hi as int));
                }
                if t == 0xa3 {
                    return match open_range(token, p, q, 0x04) {
                        Some((x, y)) => Ok(copy_range(token, x, y)),
                        None => Err(Error::Truncated),
                    };
                }
                i = q;
            },
        }
    }
    Err(Error::Truncated)
}

/// Opening an element that was just made gives its contents.
proof fn lemma_opened(tag: u8, body: Seq<u8>)
    requires
        body.len() < 0x1_0000,
    ensures
        opened(tlv(tag, body), tag) == Some(body),
{
    lemma_element_of_whole(tag, body);
}

/// Reading past an element that was just made.
proof fn lemma_skip_element(tag: u8, body: Seq<u8>, rest: Seq<u8>)
    requires
        body.len() < 0x1_0000,
    ensures
        ({
            let s = tlv(tag, body) + rest;
            element(s) matches Some(e) && e.0 == tag && s.subrange(e.1, e.2) == body && s.skip(e.2)
                == rest && 0 < e.2 <= s.len() && s.len() > 0
        }),
{
    lemma_element_of_tlv(tag, body, rest);
    let s = tlv(tag, body) + rest;
    let e = element(s)->0;
    assert(s.skip(e.2) =~= rest);
}

/// The list of mechanisms of the initial token.
spec fn krb5_list() -> Seq<u8> {
    tlv(0x30, tlv(0x06, KRB5_OID@))
}

/// The list that offers Kerberos alone has Kerberos in it.
proof fn lemma_krb5_list()
    ensures
        krb5_list().len() == 13,
        list_has_krb5(krb5_list()) == Some(true),
{
    let oid = tlv(0x06, KRB5_OID@);
    lemma_element_of_whole(0x06, KRB5_OID@);
    lemma_element_of_whole(0x30, oid);
    lemma_opened(0x30, oid);
    lemma_skip_element(0x06, KRB5_OID@, Seq::empty());
    assert(oid + Seq::<u8>::empty() =~= oid);
    assert(row_has_krb5(Seq::<u8>::empty()) == Some(false));
    assert(row_has_krb5(oid) == Some(true));
}

/// The row of elements of the initial token.
spec fn init_row(krb_token: Seq<u8>) -> Seq<u8> {
    tlv(0xa0, krb5_list()) + tlv(0xa2, tlv(0x04, krb_token))
}

/// The row of the initial token holds its two fields.
proof fn lemma_init_row(krb_token: Seq<u8>)
    requires
        krb_token.len() <= 0xff00,
    ensures
        init_row(krb_token).len() < 0xff20,
        mech_token_in(init_row(krb_token)) == Some(krb_token),
        neg_fields(init_row(krb_token), None, None, None) == Some(
            NegView { mech_list: krb5_list(), mech_token: krb_token, mic: None },
        ),
{
    let list = krb5_list();
    let octets = tlv(0x04, krb_token);
    let second = tlv(0xa2, octets);
    lemma_krb5_list();
    lemma_element_of_whole(0xa0, list);
    lemma_element_of_whole(0x04, krb_token);
    lemma_element_of_whole(0xa2, octets);
    lemma_opened(0x04, krb_token);
    lemma_skip_element(0xa0, list, second);
    lemma_skip_element(0xa2, octets, Seq::empty());
    assert(second + Seq::<u8>::empty() =~= second);
    let none = Seq::<u8>::empty();
    assert(neg_fields(none, Some(list), Some(krb_token), None) == Some(
        NegView { mech_list: list, mech_token: krb_token, mic: None },
    ));
    assert(neg_fields(second, Some(list), None, None) == neg_fields(
        none,
        Some(list),
        Some(krb_token),
        None,
    ));
    assert(mech_token_in(second) == Some(krb_token));
}

/// An initial token is a negotiation, holds the Kerberos token it was made
/// of, and offers Kerberos, as long as its length can be written.
pub proof fn law_init_round_trip(krb_token: Seq<u8>)
    requires
        krb_token.len() <= 0xff00,
    ensures
        names_spnego(init_token(krb_token)),
        inner_token(init_token(krb_token)) == Some(krb_token),
        neg_init(init_token(krb_token)) matches Some(v) && v.mech_token == krb_token && v.mic
            is None && list_has_krb5(v.mech_list) == Some(true),
{
    let row = init_row(krb_token);
    lemma_krb5_list();
    lemma_init_row(krb_token);
    let whole = tlv(0x30, row);
    lemma_element_of_whole(0x30, row);
    lemma_opened(0x30, row);
    let neg = tlv(0xa0, whole);
    lemma_element_of_whole(0xa0, whole);
    let sp = tlv(0x06, SPNEGO_OID@);
    lemma_element_of_whole(0x06, SPNEGO_OID@);
    let body = sp + neg;
    lemma_element_of_whole(0x60, body);
    assert(body[0] == 0x06);
    assert(body[1] == 6);
    assert(sp.subrange(2, 8) == SPNEGO_OID@);
    assert(body.subrange(2, 8) =~= SPNEGO_OID@);
    assert(body.skip(8) =~= neg);
    assert(init_token(krb_token) == tlv(0x60, body));
    assert(oid_and_rest(init_token(krb_token)) == Some((SPNEGO_OID@, neg)));
    assert(mech_token_of(neg) == Some(krb_token));
    assert(row_inside(neg, 0xa0) == Some(row));
}

/// The checksum is found behind an element of another kind.
proof fn lemma_mic_behind(tag: u8, body: Seq<u8>, rest: Seq<u8>)
    requires
        body.len() < 0x1_0000,
        tag != 0xa3,
    ensures
        mic_in(tlv(tag, body) + rest) == mic_in(rest),
{
    lemma_skip_element(tag, body, rest);
}

/// The field that holds the checksum.
proof fn lemma_mic_field(mic: Seq<u8>)
    requires
        mic.len() < 0x1000,
    ensures
        mic_in(octet_field(0xa3, Some(mic))) == Some(mic),
        octet_field(0xa3, Some(mic)).len() < 0x1010,
{
    let om = tlv(0x04, mic);
    lemma_element_of_whole(0x04, mic);
    lemma_element_of_whole(0xa3, om);
    lemma_skip_element(0xa3, om, Seq::empty());
    assert(tlv(0xa3, om) + Seq::<u8>::empty() =~= tlv(0xa3, om));
    lemma_opened(0x04, mic);
}

/// A response with a checksum gives that checksum back.
pub proof fn law_resp_mic_round_trip(
    state: u8,
    mech: Seq<u8>,
    response: Option<Seq<u8>>,
    mic: Seq<u8>,
)
    requires
        mech.len() < 0x100,
        mic.len() < 0x1000,
        response matches Some(r) ==> r.len() < 0xe000,
    ensures
        resp_mic(neg_resp(state, mech, response, Some(mic))) == Some(mic),
{
    let st = seq![0x0au8, 0x01u8, state];
    let oid = tlv(0x06, mech);
    let a = tlv(0xa0, st);
    let b = tlv(0xa1, oid);
    let c = octet_field(0xa2, response);
    let d = octet_field(0xa3, Some(mic));
    lemma_element_of_whole(0xa0, st);
    lemma_element_of_whole(0x06, mech);
    lemma_element_of_whole(0xa1, oid);
    lemma_mic_field(mic);
    assert(mic_in(c + d) == Some(mic) && c.len() < 0xe010) by {
        match response {
            Some(x) => {
                lemma_element_of_whole(0x04, x);
                lemma_element_of_whole(0xa2, tlv(0x04, x));
                lemma_mic_behind(0xa2, tlv(0x04, x), d);
            },
            None => {
                assert(c + d =~= d);
            },
        }
    }
    lemma_mic_behind(0xa1, oid, c + d);
    lemma_mic_behind(0xa0, st, b + (c + d));
    let row = a + b + c + d;
    assert(a + (b + (c + d)) =~= row);
    lemma_resp_frame(row);
}

/// The row of a response is found again.
proof fn lemma_resp_frame(row: Seq<u8>)
    requires
        row.len() < 0xfff0,
    ensures
        row_inside(tlv(0xa1, tlv(0x30, row)), 0xa1) == Some(row),
{
    lemma_element_of_whole(0x30, row);
    lemma_opened(0x30, row);
    lemma_element_of_whole(0xa1, tlv(0x30, row));
}

/// Starts accepting a negotiation: reads the initial token, refuses one that
/// does not offer Kerberos, and puts the Kerberos token into its frame.
pub fn spnego_accept_start(token: &[u8]) -> (r: Result<(NegInit, Vec<u8>), Error>)
    ensures
        match neg_init(token@) {
            None => r matches Err(e) && e == Error::Truncated,
            Some(v) => if list_has_krb5(v.mech_list) == Some(true) {
                r matches Ok(t) && t.0@ == v && t.1@ == (if v.mech_token.len() > 0
                    && v.mech_token[0] == 0x60 {
                    v.mech_token
                } else {
                    wrapped_app(TOK_AP_REQ@, v.mech_token)
                })
            } else {
                r matches Err(e) && e == Error::Truncated
            },
        },
{
    let init = match parse_neg_init(token) {
        Err(e) => {
            return Err(e);
        },
        Ok(i) => i,
    };
    match mech_list_has_krb5(init.mech_list_der.as_slice()) {
        Err(e) => {
            return Err(e);
        },
        Ok(b) => {
            if !b {
                return Err(Error::Truncated);
            }
        },
    }
    let mech = mech_token_as_gss(init.mech_token.as_slice());
    Ok((init, mech))
}

/// The response that completes a negotiation: the acceptor's token where it
/// has one, and its checksum over the list.
pub fn spnego_response(ap_rep: Option<&[u8]>, mic: &[u8]) -> (r: Vec<u8>)
    ensures
        r@ == neg_resp(SPNEGO_ACCEPT_COMPLETED, KRB5_OID@, slice_view(ap_rep), Some(mic@)),
{
    encode_neg_resp(SPNEGO_ACCEPT_COMPLETED, &KRB5_OID, ap_rep, Some(mic))
}

/// A field may stand in an offer once: a second list, token or checksum makes
/// the offer unreadable.
pub proof fn law_no_field_twice(body: Seq<u8>, rest: Seq<u8>, x: Seq<u8>, y: Option<Seq<u8>>)
    requires
        body.len() < 0xff00,
    ensures
        neg_fields(tlv(0xa0, body) + rest, Some(x), y, y) is None,
        neg_fields(tlv(0xa2, body) + rest, y, Some(x), y) is None,
        neg_fields(tlv(0xa3, body) + rest, y, y, Some(x)) is None,
{
    lemma_element_of_tlv(0xa0, body, rest);
    lemma_element_of_tlv(0xa2, body, rest);
    lemma_element_of_tlv(0xa3, body, rest);
    reveal(tlv);
}

/// An offer has a list and a token: without either it cannot be read, and what
/// is read is what was found.
pub proof fn law_offer_has_list_and_token(
    list: Option<Seq<u8>>,
    tok: Option<Seq<u8>>,
    mic: Option<Seq<u8>>,
)
    ensures
        neg_fields(Seq::empty(), list, tok, mic) is Some <==> (list is Some && tok is Some),
        neg_fields(Seq::empty(), list, tok, mic) matches Some(v) ==> Some(v.mech_list) == list
            && Some(v.mech_token) == tok && v.mic == mic,
{
}

/// A token that does not name this negotiation is none.
pub proof fn law_other_mechanism_is_no_offer(token: Seq<u8>)
    requires
        !names_spnego(token),
    ensures
        neg_init(token) is None,
{
}

/// A list has Kerberos in it where one of its elements is its OID.
pub proof fn law_list_is_searched(oid: Seq<u8>, tag: u8, rest: Seq<u8>)
    requires
        oid.len() < 0xff00,
        row_has_krb5(rest) is Some,
    ensures
        row_has_krb5(tlv(tag, oid) + rest) == Some(
            row_has_krb5(rest) == Some(true) || (tag == 0x06 && oid == KRB5_OID@),
        ),
        row_has_krb5(Seq::empty()) == Some(false),
{
    lemma_skip_element(tag, oid, rest);
    lemma_element_of_tlv(tag, oid, rest);
}

} // verus!
