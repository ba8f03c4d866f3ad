//! Requests on behalf of another user from one end to the other: which key and
//! octets the checksums are made and verified over, and what is answered.

use crate::ad::{
    cksumtype_is_keyed, etype_requires_info2, find_s4u_padata, keyed, map_s4u_cksum,
    requires_info2, s4u_from_userid, s4u_reply_usage, s4u_user_refusal, spec_s4u_cksum,
    verify_for_user_checksum, CksumOutcome, CksumType, S4uPadata, KU_S4U_X509_REPLY,
    KU_S4U_X509_REQUEST,
};
use crate::audit::copy_name;
use crate::bytes::copy_range;
use crate::der::{userid_der_from_pa, userid_range};
use crate::error::{
    proto, refusal, Error, Status, C_PRINCIPAL_UNKNOWN, GENERIC, INAPP_CKSUM, MODIFIED,
};
use crate::issue::tgs_policy::S4u2Self;
use crate::msg::{has_pa, pa_position, EncryptionKey, PaData, PA_FOR_USER, PA_FOR_X509_USER};
use crate::name::{NameView, PrincipalName, NT_UNKNOWN};
use crate::store::Principal;
use crate::text::str_eq;
use vstd::prelude::*;
use vstd::string::*;

verus! {

/// Key usage of the checksum in a PA-FOR-USER.
pub const KU_PA_FOR_USER: u32 = 17;

/// Who a request is on behalf of.
#[derive(Clone, Debug, PartialEq, Eq)]
pub struct S4uUserId {
    /// Nonce of the request.
    pub nonce: u32,
    /// The user, where named.
    pub user: Option<PrincipalName>,
    /// The user's realm.
    pub realm: String,
    /// The user's certificate.
    pub subject_cert: Option<Vec<u8>>,
    /// The options ask for the key usage of a reply.
    pub use_reply_key_usage: bool,
    /// The other option bits as they were sent, where options were.
    pub other_options: Option<Vec<bool>>,
}

/// A PA-S4U-X509-USER.
#[derive(Clone, Debug, PartialEq, Eq)]
pub struct X509User {
    /// The user.
    pub user_id: S4uUserId,
    /// Type of the checksum.
    pub cksumtype: i32,
    /// The checksum over the user.
    pub checksum: Vec<u8>,
}

/// A PA-FOR-USER.
#[derive(Clone, Debug, PartialEq, Eq)]
pub struct ForUser {
    /// The user.
    pub user: PrincipalName,
    /// The user's realm.
    pub realm: String,
    /// Type of the checksum.
    pub cksumtype: i32,
    /// The checksum.
    pub checksum: Vec<u8>,
    /// What the checksum is over: the user, the realm and the package.
    pub signed: Vec<u8>,
}

/// No user is named.
pub open spec fn unnamed(user: Option<PrincipalName>) -> bool {
    user matches Some(n) ==> n@.components.len() == 0
}

/// A certificate came with the user.
pub open spec fn certified(id: S4uUserId) -> bool {
    id.subject_cert matches Some(c) && c@.len() > 0
}

/// The key of a PA-S4U-X509-USER: the subkey of the request, which `usable`
/// must find usable, else the session key of the header ticket.
pub open spec fn cksum_key_result<U: Fn(&EncryptionKey) -> Result<(), Error>>(
    tgt_session: EncryptionKey,
    subkey: Option<EncryptionKey>,
    usable: U,
    r: Result<EncryptionKey, Error>,
) -> bool {
    match subkey {
        None => r == Ok::<EncryptionKey, Error>(tgt_session),
        Some(k) => exists|u: Result<(), Error>|
            {
                &&& #[trigger] call_ensures(usable, (&k,), u)
                &&& match u {
                    Err(e) => r == Err::<EncryptionKey, Error>(e),
                    Ok(()) => r == Ok::<EncryptionKey, Error>(k),
                }
            },
    }
}

/// Chooses the key of a PA-S4U-X509-USER.
pub fn x509_cksum_key<'a, U: Fn(&EncryptionKey) -> Result<(), Error>>(
    tgt_session: &'a EncryptionKey,
    subkey: &'a Option<EncryptionKey>,
    usable: &U,
) -> (r: Result<&'a EncryptionKey, Error>)
    requires
        forall|k: EncryptionKey| #[trigger] call_requires(*usable, (&k,)),
    ensures
        match r {
            Ok(k) => cksum_key_result(
                *tgt_session,
                *subkey,
                *usable,
                Ok::<EncryptionKey, Error>(*k),
            ),
            Err(e) => cksum_key_result(
                *tgt_session,
                *subkey,
                *usable,
                Err::<EncryptionKey, Error>(e),
            ),
        },
{
    match subkey {
        None => Ok(tgt_session),
        Some(k) => {
            let u = usable(k);
            assert(call_ensures(*usable, (k,), u));
            match u {
                Err(e) => Err(e),
                Ok(()) => Ok(k),
            }
        },
    }
}

/// `check` gave `o` for the request's checksum over these octets.
pub open spec fn user_checked<
    C: Fn(&EncryptionKey, u32, &Vec<u8>, i32, &Vec<u8>) -> CksumOutcome,
>(check: C, key: EncryptionKey, req: X509User, octets: Seq<u8>, o: CksumOutcome) -> bool {
    exists|x: Vec<u8>|
        x@ == octets && #[trigger] call_ensures(
            check,
            (&key, KU_S4U_X509_REQUEST, &x, req.cksumtype, &req.checksum),
            o,
        )
}

/// The request's checksum over these octets was found right (`true`) or not.
pub open spec fn octets_verdict<
    C: Fn(&EncryptionKey, u32, &Vec<u8>, i32, &Vec<u8>) -> CksumOutcome,
>(octets: Seq<u8>, req: X509User, key: EncryptionKey, check: C, ok: bool) -> bool {
    exists|o: CksumOutcome|
        #![trigger user_checked(check, key, req, octets, o)]
        user_checked(check, key, req, octets, o) && ok == (o == CksumOutcome::Good)
}

/// The user of a request as it was sent was found right (`true`) or not.
pub open spec fn sent_verdict<
    C: Fn(&EncryptionKey, u32, &Vec<u8>, i32, &Vec<u8>) -> CksumOutcome,
>(raw: Seq<u8>, req: X509User, key: EncryptionKey, check: C, ok: bool) -> bool {
    match userid_range(raw) {
        None => !ok,
        Some(e) => octets_verdict(raw.subrange(e.0, e.1), req, key, check, ok),
    }
}

/// What verifying the user as encoded anew comes to.
pub open spec fn encoded_verdict<
    E: Fn(&S4uUserId) -> Result<Vec<u8>, Error>,
    C: Fn(&EncryptionKey, u32, &Vec<u8>, i32, &Vec<u8>) -> CksumOutcome,
>(req: X509User, key: EncryptionKey, encode: E, check: C, v: Result<(), Error>) -> bool {
    exists|d: Result<Vec<u8>, Error>|
        {
            &&& #[trigger] call_ensures(encode, (&req.user_id,), d)
            &&& match d {
                Err(e) => v == Err::<(), Error>(e),
                Ok(x) => exists|o: CksumOutcome| #[trigger]
                    user_checked(check, key, req, x@, o) && v == spec_s4u_cksum(o),
            }
        }
}

/// What verifying the user of a request comes to: as sent, else as encoded
/// anew.
pub open spec fn user_verdict<
    E: Fn(&S4uUserId) -> Result<Vec<u8>, Error>,
    C: Fn(&EncryptionKey, u32, &Vec<u8>, i32, &Vec<u8>) -> CksumOutcome,
>(
    raw: Seq<u8>,
    req: X509User,
    key: EncryptionKey,
    encode: E,
    check: C,
    v: Result<(), Error>,
) -> bool {
    ||| sent_verdict(raw, req, key, check, true) && v == Ok::<(), Error>(())
    ||| sent_verdict(raw, req, key, check, false) && encoded_verdict(req, key, encode, check, v)
}

/// What judging a request under its key comes to: a keyed checksum where the
/// key is of a newer type, the nonce of the request, a right checksum over the
/// user, and a user or a certificate.
pub open spec fn keyed_result<
    E: Fn(&S4uUserId) -> Result<Vec<u8>, Error>,
    C: Fn(&EncryptionKey, u32, &Vec<u8>, i32, &Vec<u8>) -> CksumOutcome,
>(
    types: Seq<CksumType>,
    raw: Seq<u8>,
    nonce: u32,
    req: X509User,
    key: EncryptionKey,
    encode: E,
    check: C,
    r: Result<(), Error>,
) -> bool {
    if requires_info2(key.keytype) && !keyed(types, req.cksumtype) {
        r == Err::<(), Error>(refusal(INAPP_CKSUM, Status::InvalidS4u2selfChecksum))
    } else if req.user_id.nonce != nonce {
        r == Err::<(), Error>(refusal(MODIFIED, Status::InvalidS4u2selfChecksum))
    } else {
        exists|v: Result<(), Error>|
            {
                &&& #[trigger] user_verdict(raw, req, key, encode, check, v)
                &&& if v is Err {
                    r == v
                } else if unnamed(req.user_id.user) && !certified(req.user_id) {
                    r == Err::<(), Error>(
                        refusal(C_PRINCIPAL_UNKNOWN, Status::InvalidS4u2selfRequest),
                    )
                } else {
                    r is Ok
                }
            }
    }
}

/// What judging a request that was read comes to.
pub open spec fn decoded_result<
    U: Fn(&EncryptionKey) -> Result<(), Error>,
    E: Fn(&S4uUserId) -> Result<Vec<u8>, Error>,
    C: Fn(&EncryptionKey, u32, &Vec<u8>, i32, &Vec<u8>) -> CksumOutcome,
>(
    types: Seq<CksumType>,
    raw: Seq<u8>,
    tgt_session: EncryptionKey,
    subkey: Option<EncryptionKey>,
    nonce: u32,
    req: X509User,
    usable: U,
    encode: E,
    check: C,
    r: Result<X509User, Error>,
) -> bool {
    exists|k: Result<EncryptionKey, Error>|
        {
            &&& #[trigger] cksum_key_result(tgt_session, subkey, usable, k)
            &&& match k {
                Err(e) => r == Err::<X509User, Error>(e),
                Ok(key) => match r {
                    Ok(q) => q == req && keyed_result(
                        types,
                        raw,
                        nonce,
                        req,
                        key,
                        encode,
                        check,
                        Ok::<(), Error>(()),
                    ),
                    Err(e) => keyed_result(
                        types,
                        raw,
                        nonce,
                        req,
                        key,
                        encode,
                        check,
                        Err::<(), Error>(e),
                    ),
                },
            }
        }
}

/// What reading and judging a PA-S4U-X509-USER comes to.
pub open spec fn x509_result<
    D: Fn(&Vec<u8>) -> Option<X509User>,
    U: Fn(&EncryptionKey) -> Result<(), Error>,
    E: Fn(&S4uUserId) -> Result<Vec<u8>, Error>,
    C: Fn(&EncryptionKey, u32, &Vec<u8>, i32, &Vec<u8>) -> CksumOutcome,
>(
    types: Seq<CksumType>,
    raw: Vec<u8>,
    tgt_session: EncryptionKey,
    subkey: Option<EncryptionKey>,
    nonce: u32,
    decode: D,
    usable: U,
    encode: E,
    check: C,
    r: Result<X509User, Error>,
) -> bool {
    exists|d: Option<X509User>|
        {
            &&& #[trigger] call_ensures(decode, (&raw,), d)
            &&& match d {
                None => r == Err::<X509User, Error>(
                    refusal(GENERIC, Status::DecodePaS4uX509User),
                ),
                Some(req) => decoded_result(
                    types,
                    raw@,
                    tgt_session,
                    subkey,
                    nonce,
                    req,
                    usable,
                    encode,
                    check,
                    r,
                ),
            }
        }
}

/// Verifies the user of a request.
fn verify_user<
    E: Fn(&S4uUserId) -> Result<Vec<u8>, Error>,
    C: Fn(&EncryptionKey, u32, &Vec<u8>, i32, &Vec<u8>) -> CksumOutcome,
>(raw: &[u8], req: &X509User, key: &EncryptionKey, encode: &E, check: &C) -> (v: Result<(), Error>)
    requires
        forall|i: S4uUserId| #[trigger] call_requires(*encode, (&i,)),
        forall|k: EncryptionKey, u: u32, x: Vec<u8>, t: i32, m: Vec<u8>| #[trigger]
            call_requires(*check, (&k, u, &x, t, &m)),
    ensures
        user_verdict(raw@, *req, *key, *encode, *check, v),
{
    let ok: bool = match userid_der_from_pa(raw) {
        None => false,
        Some((a, b)) => {
            let x = copy_range(raw, a, b);
            let o = check(key, KU_S4U_X509_REQUEST, &x, req.cksumtype, &req.checksum);
            let good: bool = o == CksumOutcome::Good;
            assert(user_checked(*check, *key, *req, x@, o));
            assert(octets_verdict(x@, *req, *key, *check, good));
            good
        },
    };
    assert(sent_verdict(raw@, *req, *key, *check, ok));
    if ok {
        return Ok(());
    }
    let d = encode(&req.user_id);
    assert(call_ensures(*encode, (&req.user_id,), d));
    match d {
        Err(e) => Err(e),
        Ok(x) => {
            let o = check(key, KU_S4U_X509_REQUEST, &x, req.cksumtype, &req.checksum);
            assert(user_checked(*check, *key, *req, x@, o));
            let v = map_s4u_cksum(o);
            assert(encoded_verdict(*req, *key, *encode, *check, v));
            v
        },
    }
}

/// Judges a request under its key.
fn judge_keyed<
    E: Fn(&S4uUserId) -> Result<Vec<u8>, Error>,
    C: Fn(&EncryptionKey, u32, &Vec<u8>, i32, &Vec<u8>) -> CksumOutcome,
>(
    types: &[CksumType],
    raw: &[u8],
    nonce: u32,
    req: &X509User,
    key: &EncryptionKey,
    encode: &E,
    check: &C,
) -> (r: Result<(), Error>)
    requires
        forall|i: S4uUserId| #[trigger] call_requires(*encode, (&i,)),
        forall|k: EncryptionKey, u: u32, x: Vec<u8>, t: i32, m: Vec<u8>| #[trigger]
            call_requires(*check, (&k, u, &x, t, &m)),
    ensures
        keyed_result(types@, raw@, nonce, *req, *key, *encode, *check, r),
{
    if etype_requires_info2(key.keytype) && !cksumtype_is_keyed(types, req.cksumtype) {
        return Err(proto(INAPP_CKSUM, Status::InvalidS4u2selfChecksum));
    }
    if req.user_id.nonce != nonce {
        return Err(proto(MODIFIED, Status::InvalidS4u2selfChecksum));
    }
    let v = verify_user(raw, req, key, encode, check);
    assert(user_verdict(raw@, *req, *key, *encode, *check, v));
    match v {
        Err(e) => {
            return Err(e);
        },
        Ok(()) => {},
    }
    let named: bool = match &req.user_id.user {
        Some(n) => n.name_string.len() > 0,
        None => false,
    };
    if !named && !has_cert(&req.user_id) {
        return Err(proto(C_PRINCIPAL_UNKNOWN, Status::InvalidS4u2selfRequest));
    }
    Ok(())
}

/// Whether a certificate came with the user.
fn has_cert(id: &S4uUserId) -> (r: bool)
    ensures
        r == certified(*id),
{
    match &id.subject_cert {
        Some(c) => c.len() > 0,
        None => false,
    }
}

/// Reads and judges a PA-S4U-X509-USER: `decode` reads it, `usable` says
/// whether a subkey is usable, `encode` encodes a user, and `check` verifies a
/// checksum under a key and a usage.
pub fn process_s4u_x509_user<
    D: Fn(&Vec<u8>) -> Option<X509User>,
    U: Fn(&EncryptionKey) -> Result<(), Error>,
    E: Fn(&S4uUserId) -> Result<Vec<u8>, Error>,
    C: Fn(&EncryptionKey, u32, &Vec<u8>, i32, &Vec<u8>) -> CksumOutcome,
>(
    types: &[CksumType],
    raw: &Vec<u8>,
    tgt_session: &EncryptionKey,
    subkey: &Option<EncryptionKey>,
    nonce: u32,
    decode: &D,
    usable: &U,
    encode: &E,
    check: &C,
) -> (r: Result<X509User, Error>)
    requires
        forall|x: Vec<u8>| #[trigger] call_requires(*decode, (&x,)),
        forall|k: EncryptionKey| #[trigger] call_requires(*usable, (&k,)),
        forall|i: S4uUserId| #[trigger] call_requires(*encode, (&i,)),
        forall|k: EncryptionKey, u: u32, x: Vec<u8>, t: i32, m: Vec<u8>| #[trigger]
            call_requires(*check, (&k, u, &x, t, &m)),
    ensures
        x509_result(
            types@,
            *raw,
            *tgt_session,
            *subkey,
            nonce,
            *decode,
            *usable,
            *encode,
            *check,
            r,
        ),
{
    let d = decode(raw);
    assert(call_ensures(*decode, (raw,), d));
    let req = match d {
        None => {
            return Err(proto(GENERIC, Status::DecodePaS4uX509User));
        },
        Some(q) => q,
    };
    let r = judge_decoded(
        types,
        raw.as_slice(),
        tgt_session,
        subkey,
        nonce,
        &req,
        usable,
        encode,
        check,
    );
    match r {
        Err(e) => Err(e),
        Ok(()) => Ok(req),
    }
}

/// Judges a request that was read.
fn judge_decoded<
    U: Fn(&EncryptionKey) -> Result<(), Error>,
    E: Fn(&S4uUserId) -> Result<Vec<u8>, Error>,
    C: Fn(&EncryptionKey, u32, &Vec<u8>, i32, &Vec<u8>) -> CksumOutcome,
>(
    types: &[CksumType],
    raw: &[u8],
    tgt_session: &EncryptionKey,
    subkey: &Option<EncryptionKey>,
    nonce: u32,
    req: &X509User,
    usable: &U,
    encode: &E,
    check: &C,
) -> (r: Result<(), Error>)
    requires
        forall|k: EncryptionKey| #[trigger] call_requires(*usable, (&k,)),
        forall|i: S4uUserId| #[trigger] call_requires(*encode, (&i,)),
        forall|k: EncryptionKey, u: u32, x: Vec<u8>, t: i32, m: Vec<u8>| #[trigger]
            call_requires(*check, (&k, u, &x, t, &m)),
    ensures
        decoded_result(
            types@,
            raw@,
            *tgt_session,
            *subkey,
            nonce,
            *req,
            *usable,
            *encode,
            *check,
            match r {
                Err(e) => Err::<X509User, Error>(e),
                Ok(()) => Ok::<X509User, Error>(*req),
            },
        ),
{
    let key = match x509_cksum_key(tgt_session, subkey, usable) {
        Err(e) => {
            assert(cksum_key_result(
                *tgt_session,
                *subkey,
                *usable,
                Err::<EncryptionKey, Error>(e),
            ));
            return Err(e);
        },
        Ok(k) => k,
    };
    assert(cksum_key_result(*tgt_session, *subkey, *usable, Ok::<EncryptionKey, Error>(*key)));
    let v = judge_keyed(types, raw, nonce, req, key, encode, check);
    assert(keyed_result(types@, raw@, nonce, *req, *key, *encode, *check, v));
    v
}

/// The view of a name, where there is one.
pub open spec fn name_view(n: Option<PrincipalName>) -> Option<NameView> {
    match n {
        Some(x) => Some(x@),
        None => None,
    }
}

/// `id` is the user that answers `asked`: the same nonce, name, realm and key
/// usage, and never a certificate or another option.
pub open spec fn answers_user(id: S4uUserId, asked: S4uUserId) -> bool {
    &&& id.nonce == asked.nonce
    &&& name_view(id.user) == name_view(asked.user)
    &&& id.realm@ == asked.realm@
    &&& id.subject_cert is None
    &&& id.use_reply_key_usage == asked.use_reply_key_usage
    &&& id.other_options is None
}

/// `encode_id` gave `d` for the user that answers a request.
pub open spec fn reply_id_encoded<E: Fn(&S4uUserId) -> Result<Vec<u8>, Error>>(
    encode_id: E,
    asked: S4uUserId,
    d: Result<Vec<u8>, Error>,
) -> bool {
    exists|id: S4uUserId|
        answers_user(id, asked) && #[trigger] call_ensures(encode_id, (&id,), d)
}

/// `sum` gave `m` for the checksum over an encoded user.
pub open spec fn reply_summed<S: Fn(&EncryptionKey, u32, &Vec<u8>) -> Result<Vec<u8>, Error>>(
    sum: S,
    key: EncryptionKey,
    asked: S4uUserId,
    der: Vec<u8>,
    m: Result<Vec<u8>, Error>,
) -> bool {
    call_ensures(
        sum,
        (
            &key,
            if asked.use_reply_key_usage {
                KU_S4U_X509_REPLY
            } else {
                KU_S4U_X509_REQUEST
            },
            &der,
        ),
        m,
    )
}

/// `encode` gave `d` for the answer to a request with this checksum.
pub open spec fn reply_encoded<W: Fn(&X509User) -> Result<Vec<u8>, Error>>(
    encode: W,
    req: X509User,
    mac: Seq<u8>,
    d: Result<Vec<u8>, Error>,
) -> bool {
    exists|x: X509User|
        {
            &&& answers_user(x.user_id, req.user_id)
            &&& x.cksumtype == req.cksumtype
            &&& x.checksum@ == mac
            &&& #[trigger] call_ensures(encode, (&x,), d)
        }
}

/// The data that answer a request: the encoded answer, and for a key of an
/// older type the two checksums once more, for the encrypted reply.
pub open spec fn answer_data(
    key: EncryptionKey,
    der: Seq<u8>,
    request_mac: Seq<u8>,
    mac: Seq<u8>,
    t: (PaData, Option<PaData>),
) -> bool {
    &&& t.0.padata_type == PA_FOR_X509_USER
    &&& t.0.padata_value@ == der
    &&& match t.1 {
        Some(p) => !requires_info2(key.keytype) && p.padata_type == PA_FOR_X509_USER
            && p.padata_value@ == request_mac + mac,
        None => requires_info2(key.keytype),
    }
}

/// What answering a PA-S4U-X509-USER under its key comes to.
pub open spec fn s4u_rep_result<
    E: Fn(&S4uUserId) -> Result<Vec<u8>, Error>,
    S: Fn(&EncryptionKey, u32, &Vec<u8>) -> Result<Vec<u8>, Error>,
    W: Fn(&X509User) -> Result<Vec<u8>, Error>,
>(
    req: X509User,
    key: EncryptionKey,
    encode_id: E,
    sum: S,
    encode: W,
    r: Result<(PaData, Option<PaData>), Error>,
) -> bool {
    exists|d: Result<Vec<u8>, Error>|
        {
            &&& #[trigger] reply_id_encoded(encode_id, req.user_id, d)
            &&& match d {
                Err(e) => r matches Err(x) && x == e,
                Ok(der) => exists|m: Result<Vec<u8>, Error>|
                    {
                        &&& #[trigger] reply_summed(sum, key, req.user_id, der, m)
                        &&& match m {
                            Err(e) => r matches Err(x) && x == e,
                            Ok(mac) => exists|w: Result<Vec<u8>, Error>|
                                {
                                    &&& #[trigger] reply_encoded(encode, req, mac@, w)
                                    &&& match w {
                                        Err(e) => r matches Err(x) && x == e,
                                        Ok(v) => r matches Ok(t) && answer_data(
                                            key,
                                            v@,
                                            req.checksum@,
                                            mac@,
                                            t,
                                        ),
                                    }
                                },
                        }
                    },
            }
        }
}

/// The user that answers a request.
fn answering_user(asked: &S4uUserId) -> (r: S4uUserId)
    ensures
        answers_user(r, *asked),
{
    S4uUserId {
        nonce: asked.nonce,
        user: copy_name(&asked.user),
        realm: asked.realm.clone(),
        subject_cert: None,
        use_reply_key_usage: asked.use_reply_key_usage,
        other_options: None,
    }
}

/// Answers a PA-S4U-X509-USER under its key.
fn answer_under<
    E: Fn(&S4uUserId) -> Result<Vec<u8>, Error>,
    S: Fn(&EncryptionKey, u32, &Vec<u8>) -> Result<Vec<u8>, Error>,
    W: Fn(&X509User) -> Result<Vec<u8>, Error>,
>(req: &X509User, key: &EncryptionKey, encode_id: &E, sum: &S, encode: &W) -> (r: Result<
    (PaData, Option<PaData>),
    Error,
>)
    requires
        forall|i: S4uUserId| #[trigger] call_requires(*encode_id, (&i,)),
        forall|k: EncryptionKey, u: u32, x: Vec<u8>| #[trigger] call_requires(*sum, (&k, u, &x)),
        forall|x: X509User| #[trigger] call_requires(*encode, (&x,)),
    ensures
        s4u_rep_result(*req, *key, *encode_id, *sum, *encode, r),
{
    let user_id = answering_user(&req.user_id);
    let d = encode_id(&user_id);
    assert(reply_id_encoded(*encode_id, req.user_id, d));
    let der = match d {
        Err(e) => {
            return Err(e);
        },
        Ok(v) => v,
    };
    let m = sum(key, s4u_reply_usage(req.user_id.use_reply_key_usage), &der);
    assert(reply_summed(*sum, *key, req.user_id, der, m));
    let mac = match m {
        Err(e) => {
            return Err(e);
        },
        Ok(v) => v,
    };
    let enc = if etype_requires_info2(key.keytype) {
        None
    } else {
        let mut octets = crate::bytes::copy(req.checksum.as_slice());
        crate::bytes::append(&mut octets, mac.as_slice());
        Some(PaData { padata_type: PA_FOR_X509_USER, padata_value: octets })
    };
    let ghost sealed = mac@;
    let rep = X509User { user_id, cksumtype: req.cksumtype, checksum: mac };
    let w = encode(&rep);
    assert(reply_encoded(*encode, *req, sealed, w));
    match w {
        Err(e) => Err(e),
        Ok(v) => Ok((PaData { padata_type: PA_FOR_X509_USER, padata_value: v }, enc)),
    }
}

/// Answers a PA-S4U-X509-USER: `encode_id` encodes the user, `sum` makes the
/// checksum over it under a key and a usage, and `encode` encodes the answer.
pub fn make_s4u2self_rep<
    U: Fn(&EncryptionKey) -> Result<(), Error>,
    E: Fn(&S4uUserId) -> Result<Vec<u8>, Error>,
    S: Fn(&EncryptionKey, u32, &Vec<u8>) -> Result<Vec<u8>, Error>,
    W: Fn(&X509User) -> Result<Vec<u8>, Error>,
>(
    req: &X509User,
    tgt_session: &EncryptionKey,
    subkey: &Option<EncryptionKey>,
    usable: &U,
    encode_id: &E,
    sum: &S,
    encode: &W,
) -> (r: Result<(PaData, Option<PaData>), Error>)
    requires
        forall|k: EncryptionKey| #[trigger] call_requires(*usable, (&k,)),
        forall|i: S4uUserId| #[trigger] call_requires(*encode_id, (&i,)),
        forall|k: EncryptionKey, u: u32, x: Vec<u8>| #[trigger] call_requires(*sum, (&k, u, &x)),
        forall|x: X509User| #[trigger] call_requires(*encode, (&x,)),
    ensures
        exists|k: Result<EncryptionKey, Error>|
            {
                &&& #[trigger] cksum_key_result(*tgt_session, *subkey, *usable, k)
                &&& match k {
                    Err(e) => r matches Err(x) && x == e,
                    Ok(key) => s4u_rep_result(*req, key, *encode_id, *sum, *encode, r),
                }
            },
{
    match x509_cksum_key(tgt_session, subkey, usable) {
        Err(e) => {
            assert(cksum_key_result(
                *tgt_session,
                *subkey,
                *usable,
                Err::<EncryptionKey, Error>(e),
            ));
            Err(e)
        },
        Ok(key) => {
            assert(cksum_key_result(
                *tgt_session,
                *subkey,
                *usable,
                Ok::<EncryptionKey, Error>(*key),
            ));
            answer_under(req, key, encode_id, sum, encode)
        },
    }
}

/// What a looked-up user came to: `fetch` is asked only for a user of the
/// local realm that came without a certificate.
pub open spec fn user_fetched<F: Fn(&PrincipalName) -> Result<Option<Principal>, Error>>(
    store_realm: Seq<char>,
    id: S4uUserId,
    fetch: F,
    f: Result<Option<Principal>, Error>,
) -> bool {
    if id.realm@ != store_realm || certified(id) {
        f == Ok::<Option<Principal>, Error>(None)
    } else {
        exists|n: PrincipalName|
            {
                &&& match id.user {
                    Some(u) => n@ == u@,
                    None => n@.name_type == NT_UNKNOWN && n@.components.len() == 0,
                }
                &&& #[trigger] call_ensures(fetch, (&n,), f)
            }
    }
}

/// `s` is the user of a request that was looked up.
pub open spec fn is_user(
    s: S4u2Self,
    store_realm: Seq<char>,
    id: S4uUserId,
    f: Result<Option<Principal>, Error>,
) -> bool {
    &&& s.realm@ == id.realm@
    &&& match id.user {
        Some(n) => s.user@ == n@,
        None => s.user@.name_type == NT_UNKNOWN && s.user@.components.len() == 0,
    }
    &&& s.local == (if id.realm@ == store_realm {
        Some(crate::ad::counted_user(f->Ok_0->0))
    } else {
        None
    })
}

/// What looking up the user of a request comes to.
pub open spec fn user_result<F: Fn(&PrincipalName) -> Result<Option<Principal>, Error>>(
    store_realm: Seq<char>,
    id: S4uUserId,
    fetch: F,
    r: Result<S4u2Self, Error>,
) -> bool {
    exists|f: Result<Option<Principal>, Error>|
        {
            &&& #[trigger] user_fetched(store_realm, id, fetch, f)
            &&& match s4u_user_refusal(store_realm, id.realm@, certified(id), f) {
                Some(e) => r == Err::<S4u2Self, Error>(e),
                None => r matches Ok(s) && is_user(s, store_realm, id, f),
            }
        }
}

/// Looks up the user of a request.
fn look_up<F: Fn(&PrincipalName) -> Result<Option<Principal>, Error>>(
    store_realm: &str,
    id: &S4uUserId,
    fetch: &F,
) -> (r: Result<S4u2Self, Error>)
    requires
        forall|n: PrincipalName| #[trigger] call_requires(*fetch, (&n,)),
    ensures
        user_result(store_realm@, *id, *fetch, r),
{
    let cert: bool = has_cert(id);
    let user = match &id.user {
        Some(n) => n.copy(),
        None => PrincipalName { name_type: NT_UNKNOWN, name_string: Vec::new() },
    };
    let fetched: Result<Option<Principal>, Error> = if !str_eq(id.realm.as_str(), store_realm)
        || cert {
        Ok(None)
    } else {
        fetch(&user)
    };
    assert(user_fetched(store_realm@, *id, *fetch, fetched));
    s4u_from_userid(store_realm, Some(user), id.realm.clone(), cert, fetched)
}

/// What judging a PA-FOR-USER comes to.
pub open spec fn for_user_result<
    D: Fn(&Vec<u8>) -> Option<ForUser>,
    C: Fn(&EncryptionKey, u32, &Vec<u8>, i32, &Vec<u8>) -> CksumOutcome,
>(
    types: Seq<CksumType>,
    raw: Vec<u8>,
    tgt_session: EncryptionKey,
    decode: D,
    check: C,
    r: Result<ForUser, Error>,
) -> bool {
    exists|d: Option<ForUser>|
        {
            &&& #[trigger] call_ensures(decode, (&raw,), d)
            &&& match d {
                None => r == Err::<ForUser, Error>(refusal(GENERIC, Status::DecodePaForUser)),
                Some(pa) => if !keyed(types, pa.cksumtype) {
                    r == Err::<ForUser, Error>(
                        refusal(INAPP_CKSUM, Status::InvalidS4u2selfChecksum),
                    )
                } else {
                    exists|o: CksumOutcome|
                        {
                            &&& #[trigger] call_ensures(
                                check,
                                (
                                    &tgt_session,
                                    KU_PA_FOR_USER,
                                    &pa.signed,
                                    pa.cksumtype,
                                    &pa.checksum,
                                ),
                                o,
                            )
                            &&& match spec_s4u_cksum(o) {
                                Err(e) => r == Err::<ForUser, Error>(e),
                                Ok(()) => r == Ok::<ForUser, Error>(pa),
                            }
                        }
                },
            }
        }
}

/// Reads and judges a PA-FOR-USER, whose checksum is under the session key of
/// the header ticket.
fn process_for_user<
    D: Fn(&Vec<u8>) -> Option<ForUser>,
    C: Fn(&EncryptionKey, u32, &Vec<u8>, i32, &Vec<u8>) -> CksumOutcome,
>(
    types: &[CksumType],
    raw: &Vec<u8>,
    tgt_session: &EncryptionKey,
    decode: &D,
    check: &C,
) -> (r: Result<ForUser, Error>)
    requires
        forall|x: Vec<u8>| #[trigger] call_requires(*decode, (&x,)),
        forall|k: EncryptionKey, u: u32, x: Vec<u8>, t: i32, m: Vec<u8>| #[trigger]
            call_requires(*check, (&k, u, &x, t, &m)),
    ensures
        for_user_result(types@, *raw, *tgt_session, *decode, *check, r),
{
    let d = decode(raw);
    assert(call_ensures(*decode, (raw,), d));
    let pa = match d {
        None => {
            return Err(proto(GENERIC, Status::DecodePaForUser));
        },
        Some(p) => p,
    };
    if !cksumtype_is_keyed(types, pa.cksumtype) {
        return Err(proto(INAPP_CKSUM, Status::InvalidS4u2selfChecksum));
    }
    let o = check(tgt_session, KU_PA_FOR_USER, &pa.signed, pa.cksumtype, &pa.checksum);
    match verify_for_user_checksum(types, pa.cksumtype, o) {
        Err(e) => Err(e),
        Ok(()) => Ok(pa),
    }
}

/// The user that a PA-FOR-USER names.
pub open spec fn named_user(id: S4uUserId, pa: ForUser) -> bool {
    id.user == Some(pa.user) && id.realm == pa.realm && id.subject_cert is None
}

/// What a request with these data comes to: the certificate form counts before
/// the name form, and with neither the request is for its own client.
pub open spec fn s4u2self_result<
    D: Fn(&Vec<u8>) -> Option<X509User>,
    G: Fn(&Vec<u8>) -> Option<ForUser>,
    U: Fn(&EncryptionKey) -> Result<(), Error>,
    E: Fn(&S4uUserId) -> Result<Vec<u8>, Error>,
    C: Fn(&EncryptionKey, u32, &Vec<u8>, i32, &Vec<u8>) -> CksumOutcome,
    F: Fn(&PrincipalName) -> Result<Option<Principal>, Error>,
>(
    store_realm: Seq<char>,
    types: Seq<CksumType>,
    tgt_session: EncryptionKey,
    subkey: Option<EncryptionKey>,
    pas: Seq<PaData>,
    nonce: u32,
    decode_x509: D,
    decode_user: G,
    usable: U,
    encode: E,
    check: C,
    fetch: F,
    r: Result<Option<S4u2Self>, Error>,
) -> bool {
    if has_pa(pas, PA_FOR_X509_USER) {
        exists|q: Result<X509User, Error>|
            {
                &&& #[trigger] x509_result(
                    types,
                    pas[pa_position(pas, PA_FOR_X509_USER)].padata_value,
                    tgt_session,
                    subkey,
                    nonce,
                    decode_x509,
                    usable,
                    encode,
                    check,
                    q,
                )
                &&& match q {
                    Err(e) => r matches Err(x) && x == e,
                    Ok(req) => exists|s: Result<S4u2Self, Error>|
                        {
                            &&& #[trigger] user_result(store_realm, req.user_id, fetch, s)
                            &&& match s {
                                Err(e) => r matches Err(x) && x == e,
                                Ok(u) => r matches Ok(Some(t)) && t == (S4u2Self {
                                    x509: Some(req),
                                    ..u
                                }),
                            }
                        },
                }
            }
    } else if has_pa(pas, PA_FOR_USER) {
        exists|q: Result<ForUser, Error>|
            {
                &&& #[trigger] for_user_result(
                    types,
                    pas[pa_position(pas, PA_FOR_USER)].padata_value,
                    tgt_session,
                    decode_user,
                    check,
                    q,
                )
                &&& match q {
                    Err(e) => r matches Err(x) && x == e,
                    Ok(pa) => exists|id: S4uUserId, s: Result<S4u2Self, Error>|
                        {
                            &&& named_user(id, pa)
                            &&& #[trigger] user_result(store_realm, id, fetch, s)
                            &&& match s {
                                Err(e) => r matches Err(x) && x == e,
                                Ok(u) => r matches Ok(Some(t)) && t == (S4u2Self { x509: None, ..u }),
                            }
                        },
                }
            }
    } else {
        r matches Ok(o) && o is None
    }
}

/// Finds out whom a request is on behalf of: reads and judges the data that
/// name the user, and looks the user up.
pub fn process_s4u2self_req<
    D: Fn(&Vec<u8>) -> Option<X509User>,
    G: Fn(&Vec<u8>) -> Option<ForUser>,
    U: Fn(&EncryptionKey) -> Result<(), Error>,
    E: Fn(&S4uUserId) -> Result<Vec<u8>, Error>,
    C: Fn(&EncryptionKey, u32, &Vec<u8>, i32, &Vec<u8>) -> CksumOutcome,
    F: Fn(&PrincipalName) -> Result<Option<Principal>, Error>,
>(
    store_realm: &str,
    types: &[CksumType],
    tgt_session: &EncryptionKey,
    subkey: &Option<EncryptionKey>,
    pas: &[PaData],
    nonce: u32,
    decode_x509: &D,
    decode_user: &G,
    usable: &U,
    encode: &E,
    check: &C,
    fetch: &F,
) -> (r: Result<Option<S4u2Self>, Error>)
    requires
        forall|x: Vec<u8>| #[trigger] call_requires(*decode_x509, (&x,)),
        forall|x: Vec<u8>| #[trigger] call_requires(*decode_user, (&x,)),
        forall|k: EncryptionKey| #[trigger] call_requires(*usable, (&k,)),
        forall|i: S4uUserId| #[trigger] call_requires(*encode, (&i,)),
        forall|k: EncryptionKey, u: u32, x: Vec<u8>, t: i32, m: Vec<u8>| #[trigger]
            call_requires(*check, (&k, u, &x, t, &m)),
        forall|n: PrincipalName| #[trigger] call_requires(*fetch, (&n,)),
    ensures
        s4u2self_result(
            store_realm@,
            types@,
            *tgt_session,
            *subkey,
            pas@,
            nonce,
            *decode_x509,
            *decode_user,
            *usable,
            *encode,
            *check,
            *fetch,
            r,
        ),
{
    match find_s4u_padata(pas) {
        S4uPadata::X509(i) => {
            let raw = &pas[i].padata_value;
            let q = process_s4u_x509_user(
                types,
                raw,
                tgt_session,
                subkey,
                nonce,
                decode_x509,
                usable,
                encode,
                check,
            );
            assert(x509_result(
                types@,
                pas@[pa_position(pas@, PA_FOR_X509_USER)].padata_value,
                *tgt_session,
                *subkey,
                nonce,
                *decode_x509,
                *usable,
                *encode,
                *check,
                q,
            ));
            let req = match q {
                Err(e) => {
                    return Err(e);
                },
                Ok(v) => v,
            };
            let s = look_up(store_realm, &req.user_id, fetch);
            assert(user_result(store_realm@, req.user_id, *fetch, s));
            match s {
                Err(e) => Err(e),
                Ok(u) => Ok(
                    Some(
                        S4u2Self { user: u.user, realm: u.realm, local: u.local, x509: Some(req) },
                    ),
                ),
            }
        },
        S4uPadata::ForUser(i) => {
            let raw = &pas[i].padata_value;
            let q = process_for_user(types, raw, tgt_session, decode_user, check);
            assert(for_user_result(
                types@,
                pas@[pa_position(pas@, PA_FOR_USER)].padata_value,
                *tgt_session,
                *decode_user,
                *check,
                q,
            ));
            let pa = match q {
                Err(e) => {
                    return Err(e);
                },
                Ok(v) => v,
            };
            let ghost asked = pa;
            let id = S4uUserId {
                nonce: 0,
                user: Some(pa.user),
                realm: pa.realm,
                subject_cert: None,
                use_reply_key_usage: false,
                other_options: None,
            };
            let s = look_up(store_realm, &id, fetch);
            assert(named_user(id, asked) && user_result(store_realm@, id, *fetch, s));
            match s {
                Err(e) => Err(e),
                Ok(u) => Ok(
                    Some(S4u2Self { user: u.user, realm: u.realm, local: u.local, x509: None }),
                ),
            }
        },
        S4uPadata::Absent => Ok(None),
    }
}

/// Finds out whom a request is on behalf of.
pub trait UserReader {
    /// It can be asked.
    spec fn ready(&self) -> bool;

    /// It gives `r` for a request with these padata and this nonce to the KDC of a
    /// realm, whose header has this session key and this subkey.
    spec fn reads(
        &self,
        realm: Seq<char>,
        session: EncryptionKey,
        subkey: Option<EncryptionKey>,
        pas: Seq<PaData>,
        nonce: u32,
        r: Result<Option<S4u2Self>, Error>,
    ) -> bool;

    /// Finds out whom a request is on behalf of.
    fn read(
        &self,
        realm: &str,
        session: &EncryptionKey,
        subkey: &Option<EncryptionKey>,
        pas: &[PaData],
        nonce: u32,
    ) -> (r: Result<Option<S4u2Self>, Error>)
        requires
            self.ready(),
        ensures
            self.reads(realm@, *session, *subkey, pas@, nonce, r),
    ;
}

/// Finds out whom a request is on behalf of by the data that name the user.
pub struct S4uReader<'a, D, G, U, E, C, F> {
    /// The checksum types that are known.
    pub types: &'a [CksumType],
    /// Reads a PA-S4U-X509-USER.
    pub decode_x509: &'a D,
    /// Reads a PA-FOR-USER.
    pub decode_user: &'a G,
    /// Says whether a key is one.
    pub usable: &'a U,
    /// Encodes the user of a PA-S4U-X509-USER.
    pub encode: &'a E,
    /// Verifies a checksum under a key and a usage.
    pub check: &'a C,
    /// Looks an entry up.
    pub fetch: &'a F,
}

impl<
    'a,
    D: Fn(&Vec<u8>) -> Option<X509User>,
    G: Fn(&Vec<u8>) -> Option<ForUser>,
    U: Fn(&EncryptionKey) -> Result<(), Error>,
    E: Fn(&S4uUserId) -> Result<Vec<u8>, Error>,
    C: Fn(&EncryptionKey, u32, &Vec<u8>, i32, &Vec<u8>) -> CksumOutcome,
    F: Fn(&PrincipalName) -> Result<Option<Principal>, Error>,
> UserReader for S4uReader<'a, D, G, U, E, C, F> {
    open spec fn ready(&self) -> bool {
        &&& forall|x: Vec<u8>| #[trigger] call_requires(*self.decode_x509, (&x,))
        &&& forall|x: Vec<u8>| #[trigger] call_requires(*self.decode_user, (&x,))
        &&& forall|k: EncryptionKey| #[trigger] call_requires(*self.usable, (&k,))
        &&& forall|i: S4uUserId| #[trigger] call_requires(*self.encode, (&i,))
        &&& forall|k: EncryptionKey, u: u32, x: Vec<u8>, t: i32, m: Vec<u8>| #[trigger]
            call_requires(*self.check, (&k, u, &x, t, &m))
        &&& forall|n: PrincipalName| #[trigger] call_requires(*self.fetch, (&n,))
    }

    open spec fn reads(
        &self,
        realm: Seq<char>,
        session: EncryptionKey,
        subkey: Option<EncryptionKey>,
        pas: Seq<PaData>,
        nonce: u32,
        r: Result<Option<S4u2Self>, Error>,
    ) -> bool {
        s4u2self_result(
            realm,
            self.types@,
            session,
            subkey,
            pas,
            nonce,
            *self.decode_x509,
            *self.decode_user,
            *self.usable,
            *self.encode,
            *self.check,
            *self.fetch,
            r,
        )
    }

    fn read(
        &self,
        realm: &str,
        session: &EncryptionKey,
        subkey: &Option<EncryptionKey>,
        pas: &[PaData],
        nonce: u32,
    ) -> (r: Result<Option<S4u2Self>, Error>) {
        process_s4u2self_req(
            realm,
            self.types,
            session,
            subkey,
            pas,
            nonce,
            self.decode_x509,
            self.decode_user,
            self.usable,
            self.encode,
            self.check,
            self.fetch,
        )
    }
}

/// An answered request never hands a certificate or another option back, and its
/// nonce and key usage are those of the request.
pub proof fn law_answer_omits_certificate<
    E: Fn(&S4uUserId) -> Result<Vec<u8>, Error>,
    S: Fn(&EncryptionKey, u32, &Vec<u8>) -> Result<Vec<u8>, Error>,
    W: Fn(&X509User) -> Result<Vec<u8>, Error>,
>(
    req: X509User,
    key: EncryptionKey,
    encode_id: E,
    sum: S,
    encode: W,
    read: spec_fn(Seq<u8>) -> Option<X509User>,
    t: (PaData, Option<PaData>),
)
    requires
        s4u_rep_result(req, key, encode_id, sum, encode, Ok(t)),
        forall|x: X509User, v: Vec<u8>| #[trigger]
            call_ensures(encode, (&x,), Ok::<Vec<u8>, Error>(v)) ==> read(v@) == Some(x),
    ensures
        read(t.0.padata_value@) matches Some(x) && x.user_id.subject_cert is None && x.user_id.nonce
            == req.user_id.nonce && x.user_id.use_reply_key_usage
            == req.user_id.use_reply_key_usage && x.user_id.other_options is None && x.cksumtype
            == req.cksumtype,
{
}

/// A request that names its user under a right checksum is accepted: where the
/// key is of an older type or the checksum keyed, the nonce that of the request,
/// and a user or a certificate is there.
pub proof fn law_rightly_signed_user_is_accepted<
    E: Fn(&S4uUserId) -> Result<Vec<u8>, Error>,
    C: Fn(&EncryptionKey, u32, &Vec<u8>, i32, &Vec<u8>) -> CksumOutcome,
>(
    types: Seq<CksumType>,
    raw: Seq<u8>,
    nonce: u32,
    req: X509User,
    key: EncryptionKey,
    encode: E,
    check: C,
    r: Result<(), Error>,
)
    requires
        keyed_result(types, raw, nonce, req, key, encode, check, r),
    ensures
        r is Ok ==> {
            &&& req.user_id.nonce == nonce
            &&& key.keytype == 16 || key.keytype == 23 || keyed(types, req.cksumtype)
            &&& (req.user_id.user matches Some(n) && n@.components.len() > 0) || (
            req.user_id.subject_cert matches Some(c) && c@.len() > 0)
        },
        req.user_id.nonce == nonce && (key.keytype == 16 || key.keytype == 23 || keyed(
            types,
            req.cksumtype,
        )) && ((req.user_id.user matches Some(n) && n@.components.len() > 0) || (
        req.user_id.subject_cert matches Some(c) && c@.len() > 0)) && (forall|
            v: Result<(), Error>,
        |
            #[trigger] user_verdict(raw, req, key, encode, check, v) ==> v is Ok) ==> r is Ok,
        req.user_id.nonce != nonce && keyed(types, req.cksumtype) ==> r == Err::<(), Error>(
            refusal(MODIFIED, Status::InvalidS4u2selfChecksum),
        ),
{
}

/// A request's own subkey signs its user where there is one, and else the session
/// key of the presented ticket.
pub proof fn law_subkey_signs_the_user<U: Fn(&EncryptionKey) -> Result<(), Error>>(
    tgt_session: EncryptionKey,
    subkey: Option<EncryptionKey>,
    usable: U,
    r: Result<EncryptionKey, Error>,
)
    requires
        cksum_key_result(tgt_session, subkey, usable, r),
    ensures
        subkey is None ==> r == Ok::<EncryptionKey, Error>(tgt_session),
        subkey matches Some(k) ==> r is Ok ==> r == Ok::<EncryptionKey, Error>(k) && call_ensures(
            usable,
            (&k,),
            Ok::<(), Error>(()),
        ),
{
    if let Some(k) = subkey {
        let u = choose|u: Result<(), Error>|
            {
                &&& #[trigger] call_ensures(usable, (&k,), u)
                &&& match u {
                    Err(e) => r == Err::<EncryptionKey, Error>(e),
                    Ok(()) => r == Ok::<EncryptionKey, Error>(k),
                }
            };
        if let Ok(x) = u {
            assert(x == ());
        }
    }
}

/// The user of a request is the one that its data name: found in the database
/// where it is local, and taken as given where it is not.
pub proof fn law_named_user_is_taken<F: Fn(&PrincipalName) -> Result<Option<Principal>, Error>>(
    store_realm: Seq<char>,
    id: S4uUserId,
    fetch: F,
    r: Result<S4u2Self, Error>,
)
    requires
        user_result(store_realm, id, fetch, r),
    ensures
        id.realm@ != store_realm ==> (r matches Ok(s) && s.local is None && s.realm@ == id.realm@),
        r matches Ok(s) ==> s.realm@ == id.realm@ && (id.user matches Some(n) ==> s.user@ == n@),
        id.realm@ == store_realm && r is Ok ==> r->Ok_0.local is Some && r->Ok_0.local->0.pw_expire
            == 0,
        id.realm@ == store_realm && (id.subject_cert matches Some(c) && c@.len() > 0) ==> r is Err,
{
}

/// A request without data that name a user is for its own client, and the
/// certificate form counts before the name form.
pub proof fn law_request_without_user_is_its_own<
    D: Fn(&Vec<u8>) -> Option<X509User>,
    G: Fn(&Vec<u8>) -> Option<ForUser>,
    U: Fn(&EncryptionKey) -> Result<(), Error>,
    E: Fn(&S4uUserId) -> Result<Vec<u8>, Error>,
    C: Fn(&EncryptionKey, u32, &Vec<u8>, i32, &Vec<u8>) -> CksumOutcome,
    F: Fn(&PrincipalName) -> Result<Option<Principal>, Error>,
>(
    store_realm: Seq<char>,
    types: Seq<CksumType>,
    tgt_session: EncryptionKey,
    subkey: Option<EncryptionKey>,
    pas: Seq<PaData>,
    nonce: u32,
    decode_x509: D,
    decode_user: G,
    usable: U,
    encode: E,
    check: C,
    fetch: F,
    r: Result<Option<S4u2Self>, Error>,
)
    requires
        s4u2self_result(
            store_realm,
            types,
            tgt_session,
            subkey,
            pas,
            nonce,
            decode_x509,
            decode_user,
            usable,
            encode,
            check,
            fetch,
            r,
        ),
    ensures
        !has_pa(pas, PA_FOR_X509_USER) && !has_pa(pas, PA_FOR_USER) ==> (r matches Ok(None)),
        has_pa(pas, PA_FOR_X509_USER) ==> (r matches Ok(o) ==> (o matches Some(t) && t.x509
            is Some)),
        !has_pa(pas, PA_FOR_X509_USER) && has_pa(pas, PA_FOR_USER) ==> (r matches Ok(o) ==> (o
            matches Some(t) && t.x509 is None)),
{
}

/// An answer holds its encoding, and for a key of des3 or rc4 the two checksums
/// once more.
pub proof fn law_old_keys_get_both_checksums(
    key: EncryptionKey,
    der: Seq<u8>,
    request_mac: Seq<u8>,
    mac: Seq<u8>,
    t: (PaData, Option<PaData>),
)
    requires
        answer_data(key, der, request_mac, mac, t),
    ensures
        t.0.padata_value@ == der,
        t.0.padata_type == PA_FOR_X509_USER,
        t.1 is Some <==> key.keytype == 16 || key.keytype == 23,
        t.1 matches Some(p) ==> p.padata_value@ == request_mac + mac,
{
}

/// A datum for a user is taken only with a keyed checksum that is right: with one
/// that is not keyed, or that is never right, it is refused.
pub proof fn law_only_keyed_checksums_name_a_user<
    D: Fn(&Vec<u8>) -> Option<ForUser>,
    C: Fn(&EncryptionKey, u32, &Vec<u8>, i32, &Vec<u8>) -> CksumOutcome,
>(
    types: Seq<CksumType>,
    raw: Vec<u8>,
    tgt_session: EncryptionKey,
    decode: D,
    check: C,
    r: Result<ForUser, Error>,
)
    requires
        for_user_result(types, raw, tgt_session, decode, check, r),
    ensures
        r matches Ok(pa) ==> keyed(types, pa.cksumtype) && call_ensures(decode, (&raw,), Some(pa)),
        (forall|d: Option<ForUser>| #[trigger]
            call_ensures(decode, (&raw,), d) ==> d is Some && !keyed(types, d->0.cksumtype)) ==> r
            == Err::<ForUser, Error>(refusal(INAPP_CKSUM, Status::InvalidS4u2selfChecksum)),
        (forall|d: Option<ForUser>| #[trigger] call_ensures(decode, (&raw,), d) ==> d is None) ==> r
            == Err::<ForUser, Error>(refusal(GENERIC, Status::DecodePaForUser)),
{
}

/// An answer for a user is summed under the usage of replies where the user's datum
/// asked for that, and else under that of requests.
pub proof fn law_answer_has_the_asked_usage<
    S: Fn(&EncryptionKey, u32, &Vec<u8>) -> Result<Vec<u8>, Error>,
>(sum: S, key: EncryptionKey, asked: S4uUserId, der: Vec<u8>, m: Result<Vec<u8>, Error>)
    requires
        reply_summed(sum, key, asked, der, m),
    ensures
        asked.use_reply_key_usage ==> call_ensures(sum, (&key, 27u32, &der), m),
        !asked.use_reply_key_usage ==> call_ensures(sum, (&key, 26u32, &der), m),
{
}

} // verus!
