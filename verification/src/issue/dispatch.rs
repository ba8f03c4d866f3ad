//! What goes out for a request: the encoded ticket, a KRB-ERROR, or nothing.

use crate::error::{Error, Status};
use crate::issue::reply::{
    as_error_reply, as_reply, handle_inner, is_krb_error, krb_error, tgs_error_reply, tgs_reply,
    Dispatch, ErrorReply, KrbError,
};
use crate::msg::{KdcReqBody, PVNO};
use vstd::prelude::*;

verus! {

/// What a KRB-ERROR draws on beside the failure.
pub struct ErrorGround<'a> {
    /// The realm of the database.
    pub store_realm: &'a str,
    /// The realm that stands in where the request's cannot be written.
    pub stand_in: &'a str,
    /// The body of the request.
    pub body: &'a KdcReqBody,
    /// The FAST layer hides the client.
    pub hide_client: bool,
}

/// `encode` gave these octets for the KRB-ERROR with a code.
pub open spec fn encoded_error<E: Fn(&KrbError) -> Vec<u8>>(
    encode: E,
    g: ErrorGround,
    code: i32,
    text: Option<Status>,
    e_data: Option<Vec<u8>>,
    b: Vec<u8>,
) -> bool {
    exists|k: KrbError|
        is_krb_error(
            k,
            g.store_realm@,
            g.stand_in@,
            code,
            text,
            e_data,
            Some(g.body),
            g.hide_client,
        ) && #[trigger] call_ensures(encode, (&k,), b)
}

/// Encodes the KRB-ERROR with a code.
pub fn error_octets<E: Fn(&KrbError) -> Vec<u8>>(
    encode: &E,
    g: &ErrorGround,
    code: i32,
    text: Option<Status>,
    e_data: Option<Vec<u8>>,
) -> (b: Vec<u8>)
    requires
        forall|k: KrbError| #[trigger] call_requires(*encode, (&k,)),
    ensures
        encoded_error(*encode, *g, code, text, e_data, b),
{
    let k = krb_error(
        g.store_realm,
        g.stand_in,
        code,
        text,
        e_data,
        Some(g.body),
        g.hide_client,
    );
    encode(&k)
}

/// What goes out for an AS request, with the text for the log: the ticket; or
/// how a failure is answered, `cookie` putting the cookie behind its data.
pub open spec fn as_sent<C: Fn(Vec<u8>) -> Vec<u8>, E: Fn(&KrbError) -> Vec<u8>>(
    g: ErrorGround,
    issued: Result<Vec<u8>, Error>,
    cookie: C,
    encode: E,
    r: (Vec<u8>, Option<String>),
) -> bool {
    match issued {
        Ok(b) => r.0 == b && r.1 is None,
        Err(e) => exists|x: ErrorReply| #[trigger]
            as_error_reply(e, x) && (match x {
                ErrorReply::Silence { detail } => r.0@.len() == 0 && r.1 == detail,
                ErrorReply::Refusal { code, text, e_data, detail } => r.1 == detail && (
                match e_data {
                    None => encoded_error(encode, g, code, text, None, r.0),
                    Some(d) => exists|v: Vec<u8>| #[trigger]
                        call_ensures(cookie, (d,), v) && encoded_error(
                            encode,
                            g,
                            code,
                            text,
                            Some(v),
                            r.0,
                        ),
                }),
            }),
    }
}

/// Answers an AS request that was judged.
pub fn answer_as<C: Fn(Vec<u8>) -> Vec<u8>, E: Fn(&KrbError) -> Vec<u8>>(
    g: &ErrorGround,
    issued: Result<Vec<u8>, Error>,
    cookie: C,
    encode: E,
) -> (r: (Vec<u8>, Option<String>))
    requires
        forall|d: Vec<u8>| #[trigger] call_requires(cookie, (d,)),
        forall|k: KrbError| #[trigger] call_requires(encode, (&k,)),
    ensures
        as_sent(*g, issued, cookie, encode, r),
{
    let e = match issued {
        Ok(b) => {
            return (b, None);
        },
        Err(e) => e,
    };
    let x = as_reply(e);
    proof {
        assert(as_error_reply(e, x));
    }
    match x {
        ErrorReply::Silence { detail } => (Vec::new(), detail),
        ErrorReply::Refusal { code, text, e_data, detail } => {
            let data: Option<Vec<u8>> = match e_data {
                None => None,
                Some(d) => Some(cookie(d)),
            };
            (error_octets(&encode, g, code, text, data), detail)
        },
    }
}

/// What goes out for a TGS request, with the text for the log: the ticket; or
/// how a failure is answered.
pub open spec fn tgs_sent<E: Fn(&KrbError) -> Vec<u8>>(
    g: ErrorGround,
    issued: Result<Vec<u8>, Error>,
    encode: E,
    r: (Vec<u8>, Option<String>),
) -> bool {
    match issued {
        Ok(b) => r.0 == b && r.1 is None,
        Err(e) => exists|x: ErrorReply| #[trigger]
            tgs_error_reply(e, x) && (match x {
                ErrorReply::Silence { detail } => r.0@.len() == 0 && r.1 == detail,
                ErrorReply::Refusal { code, text, e_data, detail } => r.1 == detail
                    && encoded_error(encode, g, code, text, e_data, r.0),
            }),
    }
}

/// Answers a TGS request that was judged.
pub fn answer_tgs<E: Fn(&KrbError) -> Vec<u8>>(
    g: &ErrorGround,
    issued: Result<Vec<u8>, Error>,
    encode: E,
) -> (r: (Vec<u8>, Option<String>))
    requires
        forall|k: KrbError| #[trigger] call_requires(encode, (&k,)),
    ensures
        tgs_sent(*g, issued, encode, r),
{
    let e = match issued {
        Ok(b) => {
            return (b, None);
        },
        Err(e) => e,
    };
    let x = tgs_reply(e);
    proof {
        assert(tgs_error_reply(e, x));
    }
    match x {
        ErrorReply::Silence { detail } => (Vec::new(), detail),
        ErrorReply::Refusal { code, text, e_data, detail } => (
            error_octets(&encode, g, code, text, e_data),
            detail,
        ),
    }
}

/// What a datagram or a stream's message comes to: neither an AS nor a TGS
/// request of this version is answered; `answer` answers the others.
pub open spec fn handled<A: Fn(Dispatch) -> Result<(Vec<u8>, Option<String>), Error>>(
    raw: Seq<u8>,
    as_version: Option<i32>,
    tgs_version: Option<i32>,
    answer: A,
    r: Result<(Vec<u8>, Option<String>), Error>,
) -> bool {
    if raw.len() > 0 && raw[0] == 0x6a && as_version == Some(PVNO) {
        call_ensures(answer, (Dispatch::As,), r)
    } else if raw.len() > 0 && raw[0] == 0x6c && tgs_version == Some(PVNO) {
        call_ensures(answer, (Dispatch::Tgs,), r)
    } else {
        r matches Ok(t) && t.0@.len() == 0 && t.1 is None
    }
}

/// Handles a datagram or a stream's message. `as_version` and `tgs_version`
/// are the protocol versions where it reads as one or the other.
pub fn handle_request<A: Fn(Dispatch) -> Result<(Vec<u8>, Option<String>), Error>>(
    raw: &[u8],
    as_version: Option<i32>,
    tgs_version: Option<i32>,
    answer: A,
) -> (r: Result<(Vec<u8>, Option<String>), Error>)
    requires
        forall|d: Dispatch| #[trigger] call_requires(answer, (d,)),
    ensures
        handled(raw@, as_version, tgs_version, answer, r),
{
    match handle_inner(raw, as_version, tgs_version) {
        Dispatch::Drop => Ok((Vec::new(), None)),
        Dispatch::As => answer(Dispatch::As),
        Dispatch::Tgs => answer(Dispatch::Tgs),
    }
}

/// A message is answered as an AS request or a TGS request by its first octet,
/// where it is of this version; any other is answered with nothing.
pub proof fn law_first_octet_decides<
    A: Fn(Dispatch) -> Result<(Vec<u8>, Option<String>), Error>,
>(
    raw: Seq<u8>,
    as_version: Option<i32>,
    tgs_version: Option<i32>,
    answer: A,
    r: Result<(Vec<u8>, Option<String>), Error>,
)
    requires
        handled(raw, as_version, tgs_version, answer, r),
    ensures
        raw.len() > 0 && raw[0] == 0x6a && as_version == Some(5i32) ==> call_ensures(
            answer,
            (Dispatch::As,),
            r,
        ),
        raw.len() > 0 && raw[0] == 0x6c && tgs_version == Some(5i32) ==> call_ensures(
            answer,
            (Dispatch::Tgs,),
            r,
        ),
        raw.len() == 0 || (raw[0] != 0x6a && raw[0] != 0x6c) ==> r is Ok && r->Ok_0.0@.len() == 0
            && r->Ok_0.1 is None,
        raw.len() > 0 && raw[0] == 0x6a && as_version != Some(5i32) ==> r is Ok
            && r->Ok_0.0@.len() == 0 && r->Ok_0.1 is None,
        raw.len() > 0 && raw[0] == 0x6c && tgs_version != Some(5i32) ==> r is Ok
            && r->Ok_0.0@.len() == 0 && r->Ok_0.1 is None,
{
}

/// A reply that was issued goes out as it is, with nothing for the log.
pub proof fn law_issued_reply_goes_out<
    C: Fn(Vec<u8>) -> Vec<u8>,
    E: Fn(&KrbError) -> Vec<u8>,
>(g: ErrorGround, b: Vec<u8>, cookie: C, encode: E, r: (Vec<u8>, Option<String>))
    ensures
        as_sent(g, Ok(b), cookie, encode, r) <==> r == (b, None::<String>),
        tgs_sent(g, Ok(b), encode, r) <==> r == (b, None::<String>),
{
}

} // verus!
