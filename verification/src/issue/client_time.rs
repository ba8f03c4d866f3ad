//! The times that clients encrypt to prove who they are. What is decoded, opened,
//! sealed and remembered comes in as functions.

use crate::error::{
    proto, refusal, refuses, Error, Status, GENERIC, PREAUTH_FAILED, REPEAT, SKEW,
};
use crate::msg::{EncryptedData, EncryptionKey, PaData, PA_ENCRYPTED_CHALLENGE};
use crate::name::{krbtgt_view, lookup_principal_id, spec_lookup_principal_id, PrincipalName};
use crate::store::{Policy, Principal};
use vstd::prelude::*;

verus! {

/// Key usage of an encrypted timestamp.
pub const KU_PA_ENC_TIMESTAMP: u32 = 1;

/// Key usage of the client's half of an encrypted challenge.
pub const KU_ENC_CHALLENGE_CLIENT: u32 = 54;

/// Key usage of the KDC's half of an encrypted challenge.
pub const KU_ENC_CHALLENGE_KDC: u32 = 55;

/// The time that a client encrypted.
#[derive(Clone, Copy, Debug, PartialEq, Eq, Structural)]
pub struct ClientTime {
    /// Seconds.
    pub seconds: u32,
    /// Microseconds, where given.
    pub micros: Option<i32>,
}

/// Judges the time that a client encrypted.
pub open spec fn client_time_result(policy: Policy, t: ClientTime, now: u32) -> Result<(), Error> {
    let apart = if now >= t.seconds {
        now - t.seconds
    } else {
        t.seconds - now
    };
    if t.micros matches Some(u) && !(0 <= u <= 999_999) {
        Err(refusal(GENERIC, Status::PreauthFailed))
    } else if apart > policy.skew {
        Err(refusal(SKEW, Status::PreauthFailed))
    } else {
        Ok(())
    }
}

/// Judges the time that a client encrypted, before it is looked up in the
/// replay cache.
pub fn judge_client_time(policy: &Policy, t: ClientTime, now: u32) -> (r: Result<(), Error>)
    ensures
        r == client_time_result(*policy, t, now),
{
    match t.micros {
        Some(u) => {
            if !(0 <= u && u <= 999_999) {
                return Err(proto(GENERIC, Status::PreauthFailed));
            }
        },
        None => {},
    }
    let apart: i64 = if now >= t.seconds {
        (now - t.seconds) as i64
    } else {
        (t.seconds - now) as i64
    };
    if apart > policy.skew {
        return Err(proto(SKEW, Status::PreauthFailed));
    }
    Ok(())
}

/// The microseconds that the replay cache keeps.
pub open spec fn kept_micros(t: ClientTime) -> i32 {
    match t.micros {
        Some(u) => u,
        None => 0,
    }
}

/// The server that the replay cache keeps: the local ticket-granting service.
pub open spec fn replay_server(realm: Seq<char>) -> Seq<char> {
    spec_lookup_principal_id(krbtgt_view(realm), realm)
}

/// `b` is what the replay cache says of the time of a client. It is asked with the
/// client, the local ticket-granting service, the time and the octets received.
pub open spec fn replay_asked<S: Fn(&String, &String, u32, i32, &Vec<u8>) -> bool>(
    realm: Seq<char>,
    client: Principal,
    blob: Vec<u8>,
    t: ClientTime,
    seen: S,
    b: bool,
) -> bool {
    exists|c: String, s: String|
        {
            &&& c@ == client.spec_id()
            &&& s@ == replay_server(realm)
            &&& #[trigger] call_ensures(seen, (&c, &s, t.seconds, kept_micros(t), &blob), b)
        }
}

/// What a time that was opened comes to: it is refused where it is too far off, or
/// was seen before.
pub open spec fn opened_time_result<S: Fn(&String, &String, u32, i32, &Vec<u8>) -> bool>(
    policy: Policy,
    realm: Seq<char>,
    client: Principal,
    blob: Vec<u8>,
    t: ClientTime,
    now: u32,
    seen: S,
    r: Result<(), Error>,
) -> bool {
    match client_time_result(policy, t, now) {
        Err(e) => r == Err::<(), Error>(e),
        Ok(()) => exists|b: bool| #[trigger]
            replay_asked(realm, client, blob, t, seen, b) && r == (if b {
                Err(refusal(REPEAT, Status::PreauthFailed))
            } else {
                Ok(())
            }),
    }
}

/// Judges a time that was opened. `seen` keeps it, and says whether it was kept
/// before.
pub fn judge_opened_time<S: Fn(&String, &String, u32, i32, &Vec<u8>) -> bool>(
    policy: &Policy,
    realm: &str,
    client: &Principal,
    blob: &Vec<u8>,
    t: ClientTime,
    now: u32,
    seen: &S,
) -> (r: Result<(), Error>)
    requires
        forall|c: String, s: String, t: u32, u: i32, b: Vec<u8>| #[trigger]
            call_requires(*seen, (&c, &s, t, u, &b)),
    ensures
        opened_time_result(*policy, realm@, *client, *blob, t, now, *seen, r),
{
    match judge_client_time(policy, t, now) {
        Err(e) => {
            return Err(e);
        },
        Ok(()) => {},
    }
    let c = client.id();
    let s = lookup_principal_id(&PrincipalName::krbtgt(realm), realm);
    let u: i32 = match t.micros {
        Some(u) => u,
        None => 0,
    };
    let b: bool = seen(&c, &s, t.seconds, u, blob);
    proof {
        assert(call_ensures(*seen, (&c, &s, t.seconds, kept_micros(t), blob), b));
        assert(replay_asked(realm@, *client, *blob, t, *seen, b));
    }
    if b {
        return Err(proto(REPEAT, Status::PreauthFailed));
    }
    Ok(())
}

/// What an encrypted timestamp comes to whose outer form was read.
pub open spec fn timestamp_opened<
    O: Fn(&EncryptionKey, u32, &Vec<u8>) -> Result<ClientTime, Error>,
    S: Fn(&String, &String, u32, i32, &Vec<u8>) -> bool,
>(
    policy: Policy,
    realm: Seq<char>,
    client: Principal,
    key: EncryptionKey,
    blob: Vec<u8>,
    enc: EncryptedData,
    now: u32,
    open: O,
    seen: S,
    r: Result<(), Error>,
) -> bool {
    exists|o: Result<ClientTime, Error>| #[trigger]
        call_ensures(open, (&key, KU_PA_ENC_TIMESTAMP, &enc.cipher), o) && (match o {
            Err(e) => r == Err::<(), Error>(e),
            Ok(t) => opened_time_result(policy, realm, client, blob, t, now, seen, r),
        })
}

/// What an encrypted timestamp comes to.
pub open spec fn enc_timestamp_result<
    D: Fn(&Vec<u8>) -> Result<EncryptedData, Error>,
    O: Fn(&EncryptionKey, u32, &Vec<u8>) -> Result<ClientTime, Error>,
    S: Fn(&String, &String, u32, i32, &Vec<u8>) -> bool,
>(
    policy: Policy,
    realm: Seq<char>,
    client: Principal,
    key: EncryptionKey,
    blob: Vec<u8>,
    now: u32,
    decode: D,
    open: O,
    seen: S,
    r: Result<(), Error>,
) -> bool {
    exists|d: Result<EncryptedData, Error>| #[trigger]
        call_ensures(decode, (&blob,), d) && (match d {
            Err(e) => r == Err::<(), Error>(e),
            Ok(enc) => timestamp_opened(
                policy,
                realm,
                client,
                key,
                blob,
                enc,
                now,
                open,
                seen,
                r,
            ),
        })
}

/// Judges an encrypted timestamp under one of the client's keys. `decode` reads its
/// outer form, `open` opens it under a key and a usage, and `seen` keeps the time
/// and says whether it was kept before.
pub fn verify_enc_timestamp<
    D: Fn(&Vec<u8>) -> Result<EncryptedData, Error>,
    O: Fn(&EncryptionKey, u32, &Vec<u8>) -> Result<ClientTime, Error>,
    S: Fn(&String, &String, u32, i32, &Vec<u8>) -> bool,
>(
    policy: &Policy,
    realm: &str,
    client: &Principal,
    key: &EncryptionKey,
    blob: &Vec<u8>,
    now: u32,
    decode: &D,
    open: &O,
    seen: &S,
) -> (r: Result<(), Error>)
    requires
        forall|b: Vec<u8>| #[trigger] call_requires(*decode, (&b,)),
        forall|k: EncryptionKey, u: u32, c: Vec<u8>| #[trigger] call_requires(*open, (&k, u, &c)),
        forall|c: String, s: String, t: u32, u: i32, b: Vec<u8>| #[trigger]
            call_requires(*seen, (&c, &s, t, u, &b)),
    ensures
        enc_timestamp_result(
            *policy,
            realm@,
            *client,
            *key,
            *blob,
            now,
            *decode,
            *open,
            *seen,
            r,
        ),
{
    let d = decode(blob);
    assert(call_ensures(*decode, (blob,), d));
    let enc = match d {
        Err(e) => {
            return Err(e);
        },
        Ok(x) => x,
    };
    let o = open(key, KU_PA_ENC_TIMESTAMP, &enc.cipher);
    assert(call_ensures(*open, (key, KU_PA_ENC_TIMESTAMP, &enc.cipher), o));
    let r = match o {
        Err(e) => Err(e),
        Ok(t) => judge_opened_time(policy, realm, client, blob, t, now, seen),
    };
    assert(timestamp_opened(*policy, realm@, *client, *key, *blob, enc, now, *open, *seen, r));
    r
}

/// What an encrypted challenge comes to under its key. One that cannot be opened is
/// a failure, whatever the reason.
pub open spec fn challenge_opened<
    O: Fn(&EncryptionKey, u32, &Vec<u8>) -> Result<ClientTime, Error>,
    S: Fn(&String, &String, u32, i32, &Vec<u8>) -> bool,
>(
    policy: Policy,
    realm: Seq<char>,
    client: Principal,
    chal: EncryptionKey,
    blob: Vec<u8>,
    enc: EncryptedData,
    now: u32,
    open: O,
    seen: S,
    r: Result<(), Error>,
) -> bool {
    exists|o: Result<ClientTime, Error>| #[trigger]
        call_ensures(open, (&chal, KU_ENC_CHALLENGE_CLIENT, &enc.cipher), o) && (match o {
            Err(_) => r == Err::<(), Error>(refusal(PREAUTH_FAILED, Status::PreauthFailed)),
            Ok(t) => opened_time_result(policy, realm, client, blob, t, now, seen, r),
        })
}

/// What an encrypted challenge comes to whose outer form was read: its key is made of
/// the armor key and the client's key.
pub open spec fn challenge_combined<
    C: Fn(&EncryptionKey, &EncryptionKey, &str, &str) -> Result<EncryptionKey, Error>,
    O: Fn(&EncryptionKey, u32, &Vec<u8>) -> Result<ClientTime, Error>,
    S: Fn(&String, &String, u32, i32, &Vec<u8>) -> bool,
>(
    policy: Policy,
    realm: Seq<char>,
    client: Principal,
    long_term: EncryptionKey,
    armor: EncryptionKey,
    blob: Vec<u8>,
    enc: EncryptedData,
    now: u32,
    combine: C,
    open: O,
    seen: S,
    r: Result<(), Error>,
) -> bool {
    exists|c: Result<EncryptionKey, Error>| #[trigger]
        call_ensures(
            combine,
            (&armor, &long_term, "clientchallengearmor", "challengelongterm"),
            c,
        ) && (match c {
            Err(e) => r == Err::<(), Error>(e),
            Ok(chal) => challenge_opened(
                policy,
                realm,
                client,
                chal,
                blob,
                enc,
                now,
                open,
                seen,
                r,
            ),
        })
}

/// What an encrypted challenge comes to.
pub open spec fn enc_challenge_result<
    D: Fn(&Vec<u8>) -> Result<EncryptedData, Error>,
    C: Fn(&EncryptionKey, &EncryptionKey, &str, &str) -> Result<EncryptionKey, Error>,
    O: Fn(&EncryptionKey, u32, &Vec<u8>) -> Result<ClientTime, Error>,
    S: Fn(&String, &String, u32, i32, &Vec<u8>) -> bool,
>(
    policy: Policy,
    realm: Seq<char>,
    client: Principal,
    long_term: EncryptionKey,
    armor: EncryptionKey,
    blob: Vec<u8>,
    now: u32,
    decode: D,
    combine: C,
    open: O,
    seen: S,
    r: Result<(), Error>,
) -> bool {
    exists|d: Result<EncryptedData, Error>| #[trigger]
        call_ensures(decode, (&blob,), d) && (match d {
            Err(e) => r == Err::<(), Error>(e),
            Ok(enc) => challenge_combined(
                policy,
                realm,
                client,
                long_term,
                armor,
                blob,
                enc,
                now,
                combine,
                open,
                seen,
                r,
            ),
        })
}

/// Judges an encrypted challenge. `decode` reads its outer form, `combine` makes its
/// key, `open` opens it under a key and a usage, and `seen` keeps the time and says
/// whether it was kept before.
pub fn verify_encrypted_challenge<
    D: Fn(&Vec<u8>) -> Result<EncryptedData, Error>,
    C: Fn(&EncryptionKey, &EncryptionKey, &str, &str) -> Result<EncryptionKey, Error>,
    O: Fn(&EncryptionKey, u32, &Vec<u8>) -> Result<ClientTime, Error>,
    S: Fn(&String, &String, u32, i32, &Vec<u8>) -> bool,
>(
    policy: &Policy,
    realm: &str,
    client: &Principal,
    long_term: &EncryptionKey,
    armor: &EncryptionKey,
    blob: &Vec<u8>,
    now: u32,
    decode: &D,
    combine: &C,
    open: &O,
    seen: &S,
) -> (r: Result<(), Error>)
    requires
        forall|b: Vec<u8>| #[trigger] call_requires(*decode, (&b,)),
        forall|a: EncryptionKey, b: EncryptionKey, p: &str, q: &str| #[trigger]
            call_requires(*combine, (&a, &b, p, q)),
        forall|k: EncryptionKey, u: u32, c: Vec<u8>| #[trigger] call_requires(*open, (&k, u, &c)),
        forall|c: String, s: String, t: u32, u: i32, b: Vec<u8>| #[trigger]
            call_requires(*seen, (&c, &s, t, u, &b)),
    ensures
        enc_challenge_result(
            *policy,
            realm@,
            *client,
            *long_term,
            *armor,
            *blob,
            now,
            *decode,
            *combine,
            *open,
            *seen,
            r,
        ),
{
    let d = decode(blob);
    assert(call_ensures(*decode, (blob,), d));
    let enc = match d {
        Err(e) => {
            return Err(e);
        },
        Ok(x) => x,
    };
    let c = combine(armor, long_term, "clientchallengearmor", "challengelongterm");
    assert(call_ensures(
        *combine,
        (armor, long_term, "clientchallengearmor", "challengelongterm"),
        c,
    ));
    let r: Result<(), Error> = match c {
        Err(e) => Err(e),
        Ok(chal) => {
            let o = open(&chal, KU_ENC_CHALLENGE_CLIENT, &enc.cipher);
            assert(call_ensures(*open, (&chal, KU_ENC_CHALLENGE_CLIENT, &enc.cipher), o));
            let r: Result<(), Error> = match o {
                Err(_) => Err(proto(PREAUTH_FAILED, Status::PreauthFailed)),
                Ok(t) => judge_opened_time(policy, realm, client, blob, t, now, seen),
            };
            assert(challenge_opened(
                *policy,
                realm@,
                *client,
                chal,
                *blob,
                enc,
                now,
                *open,
                *seen,
                r,
            ));
            r
        },
    };
    assert(challenge_combined(
        *policy,
        realm@,
        *client,
        *long_term,
        *armor,
        *blob,
        enc,
        now,
        *combine,
        *open,
        *seen,
        r,
    ));
    r
}

/// What the KDC's half of an encrypted challenge comes to once the time was sealed.
pub open spec fn kdc_challenge_encoded<N: Fn(&EncryptedData) -> Result<Vec<u8>, Error>>(
    chal: EncryptionKey,
    cipher: Vec<u8>,
    encode: N,
    r: Result<PaData, Error>,
) -> bool {
    exists|n: Result<Vec<u8>, Error>| #[trigger]
        call_ensures(
            encode,
            (&EncryptedData { etype: chal.keytype, kvno: None, cipher },),
            n,
        ) && (match n {
            Err(e) => r == Err::<PaData, Error>(e),
            Ok(octets) => r == Ok::<PaData, Error>(
                (PaData { padata_type: PA_ENCRYPTED_CHALLENGE, padata_value: octets }),
            ),
        })
}

/// What the KDC's half of an encrypted challenge comes to under its key: it holds the
/// present second, without microseconds.
pub open spec fn kdc_challenge_sealed<
    E: Fn(&EncryptionKey, u32, &ClientTime) -> Result<Vec<u8>, Error>,
    N: Fn(&EncryptedData) -> Result<Vec<u8>, Error>,
>(chal: EncryptionKey, now: u32, seal: E, encode: N, r: Result<PaData, Error>) -> bool {
    exists|s: Result<Vec<u8>, Error>| #[trigger]
        call_ensures(
            seal,
            (&chal, KU_ENC_CHALLENGE_KDC, &ClientTime { seconds: now, micros: None }),
            s,
        ) && (match s {
            Err(e) => r == Err::<PaData, Error>(e),
            Ok(cipher) => kdc_challenge_encoded(chal, cipher, encode, r),
        })
}

/// What the KDC's half of an encrypted challenge comes to.
pub open spec fn kdc_challenge_result<
    C: Fn(&EncryptionKey, &EncryptionKey, &str, &str) -> Result<EncryptionKey, Error>,
    E: Fn(&EncryptionKey, u32, &ClientTime) -> Result<Vec<u8>, Error>,
    N: Fn(&EncryptedData) -> Result<Vec<u8>, Error>,
>(
    armor: EncryptionKey,
    long_term: EncryptionKey,
    now: u32,
    combine: C,
    seal: E,
    encode: N,
    r: Result<PaData, Error>,
) -> bool {
    exists|c: Result<EncryptionKey, Error>| #[trigger]
        call_ensures(
            combine,
            (&armor, &long_term, "kdcchallengearmor", "challengelongterm"),
            c,
        ) && (match c {
            Err(e) => r == Err::<PaData, Error>(e),
            Ok(chal) => kdc_challenge_sealed(chal, now, seal, encode, r),
        })
}

/// Makes the KDC's half of an encrypted challenge. `combine` makes its key, `seal`
/// seals a time under a key and a usage, and `encode` writes the outer form.
pub fn kdc_encrypted_challenge<
    C: Fn(&EncryptionKey, &EncryptionKey, &str, &str) -> Result<EncryptionKey, Error>,
    E: Fn(&EncryptionKey, u32, &ClientTime) -> Result<Vec<u8>, Error>,
    N: Fn(&EncryptedData) -> Result<Vec<u8>, Error>,
>(
    armor: &EncryptionKey,
    long_term: &EncryptionKey,
    now: u32,
    combine: &C,
    seal: &E,
    encode: &N,
) -> (r: Result<PaData, Error>)
    requires
        forall|a: EncryptionKey, b: EncryptionKey, p: &str, q: &str| #[trigger]
            call_requires(*combine, (&a, &b, p, q)),
        forall|k: EncryptionKey, u: u32, t: ClientTime| #[trigger]
            call_requires(*seal, (&k, u, &t)),
        forall|x: EncryptedData| #[trigger] call_requires(*encode, (&x,)),
    ensures
        kdc_challenge_result(*armor, *long_term, now, *combine, *seal, *encode, r),
{
    let c = combine(armor, long_term, "kdcchallengearmor", "challengelongterm");
    assert(call_ensures(
        *combine,
        (armor, long_term, "kdcchallengearmor", "challengelongterm"),
        c,
    ));
    let chal = match c {
        Err(e) => {
            return Err(e);
        },
        Ok(k) => k,
    };
    let t = ClientTime { seconds: now, micros: None };
    let s = seal(&chal, KU_ENC_CHALLENGE_KDC, &t);
    assert(call_ensures(*seal, (&chal, KU_ENC_CHALLENGE_KDC, &t), s));
    let r: Result<PaData, Error> = match s {
        Err(e) => Err(e),
        Ok(cipher) => {
            let x = EncryptedData { etype: chal.keytype, kvno: None, cipher };
            let n = encode(&x);
            assert(call_ensures(*encode, (&x,), n));
            let r: Result<PaData, Error> = match n {
                Err(e) => Err(e),
                Ok(octets) => Ok(
                    PaData { padata_type: PA_ENCRYPTED_CHALLENGE, padata_value: octets },
                ),
            };
            assert(kdc_challenge_encoded(chal, cipher, *encode, r));
            r
        },
    };
    assert(kdc_challenge_sealed(chal, now, *seal, *encode, r));
    r
}

/// An accepted time is within the clock skew, on either side.
pub proof fn law_accepted_time_is_fresh(policy: Policy, t: ClientTime, now: u32)
    requires
        client_time_result(policy, t, now) is Ok,
    ensures
        now - t.seconds <= policy.skew,
        t.seconds - now <= policy.skew,
{
}

/// A time that the replay cache says it has is not accepted again.
pub proof fn law_seen_time_is_refused<S: Fn(&String, &String, u32, i32, &Vec<u8>) -> bool>(
    policy: Policy,
    realm: Seq<char>,
    client: Principal,
    blob: Vec<u8>,
    t: ClientTime,
    now: u32,
    seen: S,
    r: Result<(), Error>,
)
    requires
        opened_time_result(policy, realm, client, blob, t, now, seen, r),
        forall|c: String, s: String, b: bool|
            c@ == client.spec_id() && s@ == replay_server(realm) && #[trigger] call_ensures(
                seen,
                (&c, &s, t.seconds, kept_micros(t), &blob),
                b,
            ) ==> b,
    ensures
        r is Err,
{
}

/// Every time no more than the clock skew before or after the present, whose
/// microseconds are absent or fewer than a second, is accepted, and no other; a
/// time that is too far off is told so, microseconds that are none first.
pub proof fn law_fresh_time_is_accepted(policy: Policy, t: ClientTime, now: u32)
    ensures
        client_time_result(policy, t, now) is Ok <==> {
            &&& now - policy.skew <= t.seconds <= now + policy.skew
            &&& t.micros matches Some(u) ==> 0 <= u < 1_000_000
        },
        refuses(client_time_result(policy, t, now), GENERIC, Status::PreauthFailed) <==> (t.micros
            matches Some(u) && !(0 <= u < 1_000_000)),
        refuses(client_time_result(policy, t, now), SKEW, Status::PreauthFailed) ==> {
            ||| t.seconds < now - policy.skew
            ||| t.seconds > now + policy.skew
        },
        client_time_result(policy, t, now) is Err ==> {
            ||| refuses(client_time_result(policy, t, now), GENERIC, Status::PreauthFailed)
            ||| refuses(client_time_result(policy, t, now), SKEW, Status::PreauthFailed)
        },
{
}

/// A fresh time that the replay cache does not have is accepted.
pub proof fn law_new_time_is_accepted<S: Fn(&String, &String, u32, i32, &Vec<u8>) -> bool>(
    policy: Policy,
    realm: Seq<char>,
    client: Principal,
    blob: Vec<u8>,
    t: ClientTime,
    now: u32,
    seen: S,
    r: Result<(), Error>,
)
    requires
        now - policy.skew <= t.seconds <= now + policy.skew,
        t.micros matches Some(u) ==> 0 <= u < 1_000_000,
        opened_time_result(policy, realm, client, blob, t, now, seen, r),
        forall|c: String, s: String, u: i32, b: bool|
            c@ == client.name@.joined() + seq!['@'] + client.realm@ && s@
                == spec_lookup_principal_id(
                krbtgt_view(realm),
                realm,
            ) && u == (match t.micros {
                Some(m) => m,
                None => 0,
            }) && #[trigger] call_ensures(seen, (&c, &s, t.seconds, u, &blob), b) ==> !b,
    ensures
        r is Ok,
{
    assert(client.name@.joined() + seq!['@'] =~= client.name@.joined().push('@'));
}

/// A timestamp is opened under the client's key and accepted where the time in
/// it is, and refused as it cannot be read or opened.
pub proof fn law_timestamp_is_its_time<
    D: Fn(&Vec<u8>) -> Result<EncryptedData, Error>,
    O: Fn(&EncryptionKey, u32, &Vec<u8>) -> Result<ClientTime, Error>,
    S: Fn(&String, &String, u32, i32, &Vec<u8>) -> bool,
>(
    policy: Policy,
    realm: Seq<char>,
    client: Principal,
    key: EncryptionKey,
    blob: Vec<u8>,
    now: u32,
    decode: D,
    open: O,
    seen: S,
    r: Result<(), Error>,
)
    requires
        enc_timestamp_result(policy, realm, client, key, blob, now, decode, open, seen, r),
        r is Ok,
    ensures
        exists|enc: EncryptedData, t: ClientTime|
            {
                &&& #[trigger] call_ensures(decode, (&blob,), Ok::<EncryptedData, Error>(enc))
                &&& #[trigger] call_ensures(
                    open,
                    (&key, 1u32, &enc.cipher),
                    Ok::<ClientTime, Error>(t),
                )
                &&& now - policy.skew <= t.seconds <= now + policy.skew
                &&& opened_time_result(policy, realm, client, blob, t, now, seen, Ok(()))
            },
{
    let d = choose|d: Result<EncryptedData, Error>| #[trigger]
        call_ensures(decode, (&blob,), d) && (match d {
            Err(e) => r == Err::<(), Error>(e),
            Ok(enc) => timestamp_opened(
                policy,
                realm,
                client,
                key,
                blob,
                enc,
                now,
                open,
                seen,
                r,
            ),
        });
    let enc = d->Ok_0;
    let o = choose|o: Result<ClientTime, Error>| #[trigger]
        call_ensures(open, (&key, KU_PA_ENC_TIMESTAMP, &enc.cipher), o) && (match o {
            Err(e) => r == Err::<(), Error>(e),
            Ok(t) => opened_time_result(policy, realm, client, blob, t, now, seen, r),
        });
    let t = o->Ok_0;
    assert(call_ensures(decode, (&blob,), Ok::<EncryptedData, Error>(enc)));
    assert(call_ensures(open, (&key, 1u32, &enc.cipher), Ok::<ClientTime, Error>(t)));
    law_fresh_time_is_accepted(policy, t, now);
}

/// An encrypted challenge that does not open under the key combined of the armor
/// and the client's key is refused as failed pre-authentication.
pub proof fn law_unopened_challenge_is_refused<
    O: Fn(&EncryptionKey, u32, &Vec<u8>) -> Result<ClientTime, Error>,
    S: Fn(&String, &String, u32, i32, &Vec<u8>) -> bool,
>(
    policy: Policy,
    realm: Seq<char>,
    client: Principal,
    chal: EncryptionKey,
    blob: Vec<u8>,
    enc: EncryptedData,
    now: u32,
    open: O,
    seen: S,
    r: Result<(), Error>,
)
    requires
        challenge_opened(policy, realm, client, chal, blob, enc, now, open, seen, r),
        forall|o: Result<ClientTime, Error>| #[trigger]
            call_ensures(open, (&chal, 54u32, &enc.cipher), o) ==> o is Err,
    ensures
        refuses(r, PREAUTH_FAILED, Status::PreauthFailed),
{
}

/// An encrypted challenge that cannot be read, or for which no key can be
/// combined, is not accepted.
pub proof fn law_unreadable_challenge_is_refused<
    D: Fn(&Vec<u8>) -> Result<EncryptedData, Error>,
    C: Fn(&EncryptionKey, &EncryptionKey, &str, &str) -> Result<EncryptionKey, Error>,
    O: Fn(&EncryptionKey, u32, &Vec<u8>) -> Result<ClientTime, Error>,
    S: Fn(&String, &String, u32, i32, &Vec<u8>) -> bool,
>(
    policy: Policy,
    realm: Seq<char>,
    client: Principal,
    long_term: EncryptionKey,
    armor: EncryptionKey,
    blob: Vec<u8>,
    now: u32,
    decode: D,
    combine: C,
    open: O,
    seen: S,
    r: Result<(), Error>,
)
    requires
        enc_challenge_result(
            policy,
            realm,
            client,
            long_term,
            armor,
            blob,
            now,
            decode,
            combine,
            open,
            seen,
            r,
        ),
    ensures
        (forall|d: Result<EncryptedData, Error>| #[trigger]
            call_ensures(decode, (&blob,), d) ==> d is Err) ==> r is Err,
        (forall|c: Result<EncryptionKey, Error>| #[trigger]
            call_ensures(
                combine,
                (&armor, &long_term, "clientchallengearmor", "challengelongterm"),
                c,
            ) ==> c is Err) ==> r is Err,
{
}

/// The KDC's half of a challenge is an encrypted challenge.
pub proof fn law_kdc_answers_with_a_challenge<
    C: Fn(&EncryptionKey, &EncryptionKey, &str, &str) -> Result<EncryptionKey, Error>,
    E: Fn(&EncryptionKey, u32, &ClientTime) -> Result<Vec<u8>, Error>,
    N: Fn(&EncryptedData) -> Result<Vec<u8>, Error>,
>(
    armor: EncryptionKey,
    long_term: EncryptionKey,
    now: u32,
    combine: C,
    seal: E,
    encode: N,
    r: Result<PaData, Error>,
)
    requires
        kdc_challenge_result(armor, long_term, now, combine, seal, encode, r),
    ensures
        r matches Ok(p) ==> p.padata_type == 138,
        (forall|c: Result<EncryptionKey, Error>| #[trigger]
            call_ensures(
                combine,
                (&armor, &long_term, "kdcchallengearmor", "challengelongterm"),
                c,
            ) ==> c is Err) ==> r is Err,
{
}

} // verus!
