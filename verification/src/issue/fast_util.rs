//! The FAST layer of a request: what is answered inside it, and how a failure leaves
//! it. What reads, encodes and encloses comes in as functions.

use crate::error::{
    refusal, refuses, Error, Status, GENERIC, PADATA_TYPE_NOSUPP, PREAUTH_REQUIRED,
};
use crate::issue::dispatch::{encoded_error, error_octets, ErrorGround};
use crate::issue::reply::{
    check_as_message, extract_pa_tgs, fast_error_padata, fast_error_reply, fast_error_terms,
    fast_terms, wrapped_error, FastErrorTerms, FastFacts, KrbError,
};
use crate::msg::{
    has_pa, pa_position, EncryptionKey, KdcReqBody, PaData, MSG_AS_REQ, MSG_TGS_REQ, PA_FX_ERROR,
    PA_TGS_REQ,
};
use crate::name::PrincipalName;
use vstd::prelude::*;

verus! {

/// The FAST layer of a request, opened.
#[derive(Clone, Debug, PartialEq, Eq)]
pub struct FastOk {
    /// The key of the layer.
    pub armor_key: EncryptionKey,
    /// Options.
    pub options: Vec<bool>,
    /// Nonce.
    pub nonce: u32,
    /// Padata inside.
    pub padata: Vec<PaData>,
    /// The body inside.
    pub body: KdcReqBody,
}

impl FastOk {
    /// What issuing reads of the layer.
    pub fn facts(&self) -> (r: FastFacts<'_>)
        ensures
            r.options@ == self.options@,
            r.nonce == self.nonce,
            r.padata@ == self.padata@,
            *r.armor_key == self.armor_key,
    {
        FastFacts {
            options: self.options.as_slice(),
            nonce: self.nonce,
            padata: self.padata.as_slice(),
            armor_key: &self.armor_key,
        }
    }
}

/// The body that is answered: that of the FAST layer, where there is one.
pub open spec fn spec_answered_body<'a>(
    outer: &'a KdcReqBody,
    fast: Option<&'a FastOk>,
) -> &'a KdcReqBody {
    match fast {
        Some(f) => &f.body,
        None => outer,
    }
}

/// The body that is answered.
pub fn answered_body<'a>(outer: &'a KdcReqBody, fast: Option<&'a FastOk>) -> (r: &'a KdcReqBody)
    ensures
        r == spec_answered_body(outer, fast),
{
    match fast {
        Some(f) => &f.body,
        None => outer,
    }
}

/// What turns a failure inside a FAST layer into one outside of it.
pub struct FailureForm<'a, M, R, C, E, W, L> {
    /// The realm of the database.
    pub store_realm: &'a str,
    /// The realm that stands in where the request's cannot be written.
    pub stand_in: &'a str,
    /// Reads the list of pre-authentication types.
    pub methods: &'a M,
    /// Reads the padata in the data of another failure.
    pub read: &'a R,
    /// Puts a cookie for a client behind padata.
    pub cookie: &'a C,
    /// Encodes an error message.
    pub encode: &'a E,
    /// Encloses padata in a layer with a key and a nonce.
    pub enclose: &'a W,
    /// Encodes a list of padata.
    pub list: &'a L,
}

impl<
    'a,
    M: Fn(&Vec<u8>) -> Vec<PaData>,
    R: Fn(&Vec<u8>) -> Vec<PaData>,
    C: Fn(&Option<PrincipalName>, Vec<PaData>) -> Vec<PaData>,
    E: Fn(&KrbError) -> Vec<u8>,
    W: Fn(&EncryptionKey, &Vec<PaData>, u32) -> Result<PaData, Error>,
    L: Fn(&Vec<PaData>) -> Result<Vec<u8>, Error>,
> FailureForm<'a, M, R, C, E, W, L> {
    /// Its functions can be called.
    pub open spec fn ready(&self) -> bool {
        &&& forall|d: Vec<u8>| #[trigger] call_requires(*self.methods, (&d,))
        &&& forall|d: Vec<u8>| #[trigger] call_requires(*self.read, (&d,))
        &&& forall|n: Option<PrincipalName>, l: Vec<PaData>| #[trigger]
            call_requires(*self.cookie, (&n, l))
        &&& forall|k: KrbError| #[trigger] call_requires(*self.encode, (&k,))
        &&& forall|k: EncryptionKey, l: Vec<PaData>, n: u32| #[trigger]
            call_requires(*self.enclose, (&k, &l, n))
        &&& forall|l: Vec<PaData>| #[trigger] call_requires(*self.list, (&l,))
    }

    /// `l` are the padata that travel beside a failure.
    pub open spec fn beside(&self, e: Error, t: FastErrorTerms, l: Vec<PaData>) -> bool {
        if e is PreauthRequired {
            call_ensures(*self.methods, (&t.data,), l)
        } else {
            call_ensures(*self.read, (&t.data,), l)
        }
    }

    /// What an error message draws on that stands inside a layer: the client is not
    /// hidden there.
    pub open spec fn ground<'b>(&self, body: &'b KdcReqBody) -> ErrorGround<'b> where 'a: 'b {
        ErrorGround {
            store_realm: self.store_realm,
            stand_in: self.stand_in,
            body,
            hide_client: false,
        }
    }

    /// `p` is enclosed for a failure: what travels beside it, a cookie for the
    /// client, and the error message without data.
    pub open spec fn is_inner(
        &self,
        body: KdcReqBody,
        t: FastErrorTerms,
        l: Vec<PaData>,
        p: Vec<PaData>,
    ) -> bool {
        exists|c: Vec<PaData>, b: Vec<u8>|
            {
                &&& #[trigger] call_ensures(*self.cookie, (&body.cname, l), c)
                &&& #[trigger] encoded_error(
                    *self.encode,
                    self.ground(&body),
                    t.code,
                    t.text,
                    None,
                    b,
                )
                &&& p@ == c@.push(PaData { padata_type: PA_FX_ERROR, padata_value: b })
            }
    }

    /// `w` is a list of the one datum that holds a layer, encoded.
    pub open spec fn is_listed(&self, pa: PaData, w: Result<Vec<u8>, Error>) -> bool {
        exists|v: Vec<PaData>|
            v@ == seq![pa] && #[trigger] call_ensures(*self.list, (&v,), w)
    }

    /// `r` is the failure that leaves a layer for `e`: the same code, with the layer
    /// around what travels with it as its data.
    pub open spec fn leaves(&self, f: FastOk, e: Error, body: KdcReqBody, r: Error) -> bool {
        exists|t: FastErrorTerms, l: Vec<PaData>, p: Vec<PaData>, w: Result<PaData, Error>|
            {
                &&& fast_terms(e, t)
                &&& #[trigger] self.beside(e, t, l)
                &&& #[trigger] self.is_inner(body, t, l, p)
                &&& #[trigger] call_ensures(*self.enclose, (&f.armor_key, &p, f.nonce), w)
                &&& match w {
                    Err(x) => r == x,
                    Ok(pa) => exists|o: Result<Vec<u8>, Error>| #[trigger]
                        self.is_listed(pa, o) && r == wrapped_error(t, o),
                }
            }
    }

    /// `r` is what becomes of a failure: the same where there is no layer.
    pub open spec fn wraps(
        &self,
        fast: Option<&FastOk>,
        e: Error,
        body: KdcReqBody,
        r: Error,
    ) -> bool {
        match fast {
            None => r == e,
            Some(f) => self.leaves(*f, e, body, r),
        }
    }

    /// Wraps a failure for the layer of the request, where it has one. `body` is the
    /// body that was answered.
    pub fn wrap_as_fast(&self, fast: Option<&FastOk>, e: Error, body: &KdcReqBody) -> (r: Error)
        requires
            self.ready(),
        ensures
            self.wraps(fast, e, *body, r),
    {
        let f = match fast {
            None => {
                return e;
            },
            Some(f) => f,
        };
        let asks: bool = match &e {
            Error::PreauthRequired { .. } => true,
            _ => false,
        };
        let ghost whole = e;
        let t = fast_error_terms(e);
        let ghost terms = t;
        let l = if asks {
            (self.methods)(&t.data)
        } else {
            (self.read)(&t.data)
        };
        let ghost side = l;
        assert(self.beside(whole, terms, side));
        let c = (self.cookie)(&body.cname, l);
        let ghost with_cookie = c;
        let g = ErrorGround {
            store_realm: self.store_realm,
            stand_in: self.stand_in,
            body,
            hide_client: false,
        };
        let b = error_octets(self.encode, &g, t.code, t.text, None);
        let ghost inner = b;
        let p = fast_error_padata(c, b);
        proof {
            assert(call_ensures(*self.cookie, (&body.cname, side), with_cookie));
            assert(encoded_error(
                *self.encode,
                self.ground(body),
                terms.code,
                terms.text,
                None,
                inner,
            ));
            assert(self.is_inner(*body, terms, side, p));
        }
        let w = (self.enclose)(&f.armor_key, &p, f.nonce);
        let ghost enclosed = w;
        assert(call_ensures(*self.enclose, (&f.armor_key, &p, f.nonce), enclosed));
        match w {
            Err(x) => x,
            Ok(pa) => {
                let ghost datum = pa;
                let mut v: Vec<PaData> = Vec::new();
                v.push(pa);
                let o = (self.list)(&v);
                proof {
                    assert(v@ == seq![datum]);
                    assert(self.is_listed(datum, o));
                }
                fast_error_reply(t, o)
            },
        }
    }
}

/// A failure that leaves a FAST layer keeps its code, and what travels with it is data
/// inside the layer, where the layer can be made.
pub proof fn law_failure_keeps_its_code<
    M: Fn(&Vec<u8>) -> Vec<PaData>,
    R: Fn(&Vec<u8>) -> Vec<PaData>,
    C: Fn(&Option<PrincipalName>, Vec<PaData>) -> Vec<PaData>,
    E: Fn(&KrbError) -> Vec<u8>,
    W: Fn(&EncryptionKey, &Vec<PaData>, u32) -> Result<PaData, Error>,
    L: Fn(&Vec<PaData>) -> Result<Vec<u8>, Error>,
>(
    form: &FailureForm<M, R, C, E, W, L>,
    f: FastOk,
    code: i32,
    text: Option<Status>,
    e_data: Option<Vec<u8>>,
    detail: Option<String>,
    body: KdcReqBody,
    r: Error,
)
    requires
        code != PREAUTH_REQUIRED,
        form.leaves(f, Error::Protocol { code, text, e_data, detail }, body, r),
        forall|l: Vec<PaData>, w: Result<PaData, Error>| #[trigger]
            call_ensures(*form.enclose, (&f.armor_key, &l, f.nonce), w) ==> w is Ok,
        forall|l: Vec<PaData>, w: Result<Vec<u8>, Error>| #[trigger]
            call_ensures(*form.list, (&l,), w) ==> w is Ok,
    ensures
        r matches Error::Protocol { code: c, text: t, e_data: d, detail: x } && c == code && t
            == text && x == detail && d is Some,
{
}

/// What issuing for an AS message comes to: another message is refused, and so is one
/// whose FAST layer cannot be opened; the body of the layer is answered, and a failure
/// inside the layer goes out wrapped.
pub open spec fn as_from_result<
    T,
    I: Fn(&KdcReqBody, Option<&FastOk>) -> Result<T, Error>,
    M: Fn(&Vec<u8>) -> Vec<PaData>,
    R: Fn(&Vec<u8>) -> Vec<PaData>,
    C: Fn(&Option<PrincipalName>, Vec<PaData>) -> Vec<PaData>,
    E: Fn(&KrbError) -> Vec<u8>,
    W: Fn(&EncryptionKey, &Vec<PaData>, u32) -> Result<PaData, Error>,
    L: Fn(&Vec<PaData>) -> Result<Vec<u8>, Error>,
>(
    form: &FailureForm<M, R, C, E, W, L>,
    msg_type: i32,
    outer: &KdcReqBody,
    fast: Result<Option<&FastOk>, Error>,
    issue: I,
    r: Result<T, Error>,
) -> bool {
    if msg_type != MSG_AS_REQ {
        r matches Err(x) && x == refusal(GENERIC, Status::ValidateMessageType)
    } else {
        match fast {
            Err(e) => r matches Err(x) && x == e,
            Ok(layer) => exists|i: Result<T, Error>| #[trigger]
                call_ensures(issue, (spec_answered_body(outer, layer), layer), i) && (match i {
                    Ok(t) => r matches Ok(u) && u == t,
                    Err(e) => r matches Err(x) && form.wraps(
                        layer,
                        e,
                        *spec_answered_body(outer, layer),
                        x,
                    ),
                }),
        }
    }
}

/// Issues for an AS message. `fast` is its FAST layer, where it has one; `issue`
/// answers a body.
pub fn issue_as_from<
    T,
    I: Fn(&KdcReqBody, Option<&FastOk>) -> Result<T, Error>,
    M: Fn(&Vec<u8>) -> Vec<PaData>,
    R: Fn(&Vec<u8>) -> Vec<PaData>,
    C: Fn(&Option<PrincipalName>, Vec<PaData>) -> Vec<PaData>,
    E: Fn(&KrbError) -> Vec<u8>,
    W: Fn(&EncryptionKey, &Vec<PaData>, u32) -> Result<PaData, Error>,
    L: Fn(&Vec<PaData>) -> Result<Vec<u8>, Error>,
>(
    form: &FailureForm<M, R, C, E, W, L>,
    msg_type: i32,
    outer: &KdcReqBody,
    fast: Result<Option<&FastOk>, Error>,
    issue: I,
) -> (r: Result<T, Error>)
    requires
        form.ready(),
        forall|b: &KdcReqBody, f: Option<&FastOk>| #[trigger] call_requires(issue, (b, f)),
    ensures
        as_from_result(form, msg_type, outer, fast, issue, r),
{
    match check_as_message(msg_type) {
        Err(e) => {
            return Err(e);
        },
        Ok(()) => {},
    }
    let layer: Option<&FastOk> = match fast {
        Err(e) => {
            return Err(e);
        },
        Ok(l) => l,
    };
    let body = answered_body(outer, layer);
    let i = issue(body, layer);
    assert(call_ensures(issue, (body, layer), i));
    match i {
        Ok(t) => Ok(t),
        Err(e) => Err(form.wrap_as_fast(layer, e, body)),
    }
}

/// What issuing for an opened header with this FAST layer comes to: the body of the
/// layer is answered, and a failure inside the layer goes out wrapped.
pub open spec fn inside_result<
    T,
    H,
    I: Fn(&H, &KdcReqBody, Option<&FastOk>) -> Result<T, Error>,
    M: Fn(&Vec<u8>) -> Vec<PaData>,
    R: Fn(&Vec<u8>) -> Vec<PaData>,
    C: Fn(&Option<PrincipalName>, Vec<PaData>) -> Vec<PaData>,
    E: Fn(&KrbError) -> Vec<u8>,
    W: Fn(&EncryptionKey, &Vec<PaData>, u32) -> Result<PaData, Error>,
    L: Fn(&Vec<PaData>) -> Result<Vec<u8>, Error>,
>(
    form: &FailureForm<M, R, C, E, W, L>,
    outer: &KdcReqBody,
    h: H,
    layer: Option<&FastOk>,
    issue: I,
    r: Result<T, Error>,
) -> bool {
    exists|i: Result<T, Error>| #[trigger]
        call_ensures(issue, (&h, spec_answered_body(outer, layer), layer), i) && (match i {
            Ok(t) => r matches Ok(y) && y == t,
            Err(e) => r matches Err(x) && form.wraps(
                layer,
                e,
                *spec_answered_body(outer, layer),
                x,
            ),
        })
}

/// What issuing for an opened header comes to.
pub open spec fn layered_result<
    T,
    H,
    U: Fn(&H) -> Result<Option<FastOk>, Error>,
    I: Fn(&H, &KdcReqBody, Option<&FastOk>) -> Result<T, Error>,
    M: Fn(&Vec<u8>) -> Vec<PaData>,
    R: Fn(&Vec<u8>) -> Vec<PaData>,
    C: Fn(&Option<PrincipalName>, Vec<PaData>) -> Vec<PaData>,
    E: Fn(&KrbError) -> Vec<u8>,
    W: Fn(&EncryptionKey, &Vec<PaData>, u32) -> Result<PaData, Error>,
    L: Fn(&Vec<PaData>) -> Result<Vec<u8>, Error>,
>(
    form: &FailureForm<M, R, C, E, W, L>,
    outer: &KdcReqBody,
    h: H,
    unwrap: U,
    issue: I,
    r: Result<T, Error>,
) -> bool {
    exists|u: Result<Option<FastOk>, Error>| #[trigger]
        call_ensures(unwrap, (&h,), u) && (match u {
            Err(e) => r matches Err(x) && x == e,
            Ok(Some(f)) => inside_result(form, outer, h, Some(&f), issue, r),
            Ok(None) => inside_result(form, outer, h, None, issue, r),
        })
}

/// What issuing for a TGS message comes to: another message is refused, and so is one
/// without a header, or whose header or FAST layer cannot be opened.
pub open spec fn tgs_from_result<
    T,
    H,
    O: Fn(&Vec<u8>) -> Result<H, Error>,
    U: Fn(&H) -> Result<Option<FastOk>, Error>,
    I: Fn(&H, &KdcReqBody, Option<&FastOk>) -> Result<T, Error>,
    M: Fn(&Vec<u8>) -> Vec<PaData>,
    R: Fn(&Vec<u8>) -> Vec<PaData>,
    C: Fn(&Option<PrincipalName>, Vec<PaData>) -> Vec<PaData>,
    E: Fn(&KrbError) -> Vec<u8>,
    W: Fn(&EncryptionKey, &Vec<PaData>, u32) -> Result<PaData, Error>,
    L: Fn(&Vec<PaData>) -> Result<Vec<u8>, Error>,
>(
    form: &FailureForm<M, R, C, E, W, L>,
    msg_type: i32,
    padata: Seq<PaData>,
    outer: &KdcReqBody,
    open: O,
    unwrap: U,
    issue: I,
    r: Result<T, Error>,
) -> bool {
    if msg_type != MSG_TGS_REQ {
        r matches Err(x) && x == refusal(GENERIC, Status::UnknownReason)
    } else if !has_pa(padata, PA_TGS_REQ) {
        r matches Err(x) && x == refusal(PADATA_TYPE_NOSUPP, Status::ProcessTgs)
    } else {
        let value = padata[pa_position(padata, PA_TGS_REQ)].padata_value;
        exists|o: Result<H, Error>| #[trigger]
            call_ensures(open, (&value,), o) && (match o {
                Err(e) => r matches Err(x) && x == e,
                Ok(h) => layered_result(form, outer, h, unwrap, issue, r),
            })
    }
}

/// Issues for a TGS message. `open` opens and judges its header, `unwrap` opens the
/// FAST layer under it, where there is one, and `issue` answers a body.
pub fn issue_tgs_from<
    T,
    H,
    O: Fn(&Vec<u8>) -> Result<H, Error>,
    U: Fn(&H) -> Result<Option<FastOk>, Error>,
    I: Fn(&H, &KdcReqBody, Option<&FastOk>) -> Result<T, Error>,
    M: Fn(&Vec<u8>) -> Vec<PaData>,
    R: Fn(&Vec<u8>) -> Vec<PaData>,
    C: Fn(&Option<PrincipalName>, Vec<PaData>) -> Vec<PaData>,
    E: Fn(&KrbError) -> Vec<u8>,
    W: Fn(&EncryptionKey, &Vec<PaData>, u32) -> Result<PaData, Error>,
    L: Fn(&Vec<PaData>) -> Result<Vec<u8>, Error>,
>(
    form: &FailureForm<M, R, C, E, W, L>,
    msg_type: i32,
    padata: &[PaData],
    outer: &KdcReqBody,
    open: O,
    unwrap: U,
    issue: I,
) -> (r: Result<T, Error>)
    requires
        form.ready(),
        forall|v: Vec<u8>| #[trigger] call_requires(open, (&v,)),
        forall|h: H| #[trigger] call_requires(unwrap, (&h,)),
        forall|h: H, b: &KdcReqBody, f: Option<&FastOk>| #[trigger]
            call_requires(issue, (&h, b, f)),
    ensures
        tgs_from_result(form, msg_type, padata@, outer, open, unwrap, issue, r),
{
    let at: usize = match extract_pa_tgs(msg_type, padata) {
        Err(e) => {
            return Err(e);
        },
        Ok(i) => i,
    };
    let o = open(&padata[at].padata_value);
    let ghost opened = o;
    assert(call_ensures(open, (&padata@[at as int].padata_value,), opened));
    let h = match o {
        Err(e) => {
            return Err(e);
        },
        Ok(h) => h,
    };
    let u = unwrap(&h);
    let ghost found = u;
    assert(call_ensures(unwrap, (&h,), found));
    let held: Option<FastOk> = match u {
        Err(e) => {
            return Err(e);
        },
        Ok(l) => l,
    };
    let layer: Option<&FastOk> = match &held {
        Some(f) => Some(f),
        None => None,
    };
    let body = answered_body(outer, layer);
    let i = issue(&h, body, layer);
    assert(call_ensures(issue, (&h, body, layer), i));
    let r: Result<T, Error> = match i {
        Ok(t) => Ok(t),
        Err(e) => Err(form.wrap_as_fast(layer, e, body)),
    };
    assert(inside_result(form, outer, h, layer, issue, r));
    r
}

/// A message that is no AS request is not answered with a ticket, and neither is
/// one whose FAST layer cannot be opened.
pub proof fn law_only_as_requests_are_issued_for<
    T,
    I: Fn(&KdcReqBody, Option<&FastOk>) -> Result<T, Error>,
    M: Fn(&Vec<u8>) -> Vec<PaData>,
    R: Fn(&Vec<u8>) -> Vec<PaData>,
    C: Fn(&Option<PrincipalName>, Vec<PaData>) -> Vec<PaData>,
    E: Fn(&KrbError) -> Vec<u8>,
    W: Fn(&EncryptionKey, &Vec<PaData>, u32) -> Result<PaData, Error>,
    L: Fn(&Vec<PaData>) -> Result<Vec<u8>, Error>,
>(
    form: &FailureForm<M, R, C, E, W, L>,
    msg_type: i32,
    outer: &KdcReqBody,
    fast: Result<Option<&FastOk>, Error>,
    issue: I,
    r: Result<T, Error>,
)
    requires
        as_from_result(form, msg_type, outer, fast, issue, r),
    ensures
        msg_type != 10 ==> refuses(r, GENERIC, Status::ValidateMessageType),
        fast matches Err(e) ==> msg_type == 10 ==> r == Err::<T, Error>(e),
        r is Ok ==> msg_type == 10 && fast is Ok,
{
}

/// A request with a FAST layer is answered for the body inside the layer, and one
/// without for its own; what is issued for that body is handed out.
pub proof fn law_body_of_the_layer_is_answered<
    T,
    I: Fn(&KdcReqBody, Option<&FastOk>) -> Result<T, Error>,
    M: Fn(&Vec<u8>) -> Vec<PaData>,
    R: Fn(&Vec<u8>) -> Vec<PaData>,
    C: Fn(&Option<PrincipalName>, Vec<PaData>) -> Vec<PaData>,
    E: Fn(&KrbError) -> Vec<u8>,
    W: Fn(&EncryptionKey, &Vec<PaData>, u32) -> Result<PaData, Error>,
    L: Fn(&Vec<PaData>) -> Result<Vec<u8>, Error>,
>(
    form: &FailureForm<M, R, C, E, W, L>,
    outer: &KdcReqBody,
    layer: Option<&FastOk>,
    issue: I,
    r: Result<T, Error>,
)
    requires
        as_from_result(form, 10, outer, Ok(layer), issue, r),
    ensures
        layer is None ==> call_ensures(issue, (outer, None::<&FastOk>), r),
        layer matches Some(f) ==> r is Ok ==> call_ensures(issue, (&f.body, layer), r),
{
}

/// A message that is no TGS request is refused, and so is one without a header.
pub proof fn law_only_tgs_requests_are_issued_for<
    T,
    H,
    O: Fn(&Vec<u8>) -> Result<H, Error>,
    U: Fn(&H) -> Result<Option<FastOk>, Error>,
    I: Fn(&H, &KdcReqBody, Option<&FastOk>) -> Result<T, Error>,
    M: Fn(&Vec<u8>) -> Vec<PaData>,
    R: Fn(&Vec<u8>) -> Vec<PaData>,
    C: Fn(&Option<PrincipalName>, Vec<PaData>) -> Vec<PaData>,
    E: Fn(&KrbError) -> Vec<u8>,
    W: Fn(&EncryptionKey, &Vec<PaData>, u32) -> Result<PaData, Error>,
    L: Fn(&Vec<PaData>) -> Result<Vec<u8>, Error>,
>(
    form: &FailureForm<M, R, C, E, W, L>,
    msg_type: i32,
    padata: Seq<PaData>,
    outer: &KdcReqBody,
    open: O,
    unwrap: U,
    issue: I,
    r: Result<T, Error>,
)
    requires
        tgs_from_result(form, msg_type, padata, outer, open, unwrap, issue, r),
    ensures
        msg_type != 12 ==> refuses(r, GENERIC, Status::UnknownReason),
        msg_type == 12 && (forall|i: int|
            0 <= i < padata.len() ==> (#[trigger] padata[i]).padata_type != 1) ==> refuses(
            r,
            PADATA_TYPE_NOSUPP,
            Status::ProcessTgs,
        ),
{
}

/// A failure outside of any FAST layer stays as it is.
pub proof fn law_plain_failure_stays<
    M: Fn(&Vec<u8>) -> Vec<PaData>,
    R: Fn(&Vec<u8>) -> Vec<PaData>,
    C: Fn(&Option<PrincipalName>, Vec<PaData>) -> Vec<PaData>,
    E: Fn(&KrbError) -> Vec<u8>,
    W: Fn(&EncryptionKey, &Vec<PaData>, u32) -> Result<PaData, Error>,
    L: Fn(&Vec<PaData>) -> Result<Vec<u8>, Error>,
>(form: &FailureForm<M, R, C, E, W, L>, e: Error, body: KdcReqBody, r: Error)
    ensures
        form.wraps(None, e, body, r) <==> r == e,
{
}

} // verus!
