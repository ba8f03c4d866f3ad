//! Modules that take part in a request: pre-authentication, ticket policy and
//! authorization data.

use crate::bytes::copy;
use crate::error::{proto, refusal, Error, Status, POLICY, PREAUTH_FAILED};
use crate::issue::as_req::PreauthAction;
use crate::issue::client_time::{enc_timestamp_result, verify_enc_timestamp, ClientTime};
use crate::msg::{
    find_pa, has_pa, key_octets, pa_position, AuthDatum, EncryptedData, EncryptionKey, PaData,
    AD_IF_RELEVANT, PA_ENCRYPTED_CHALLENGE, PA_ENC_TIMESTAMP, PA_FX_FAST, PA_PKINIT_KX,
    PA_PK_AS_REQ, PA_SPAKE,
};
use crate::slots::Slots;
use crate::store::{attr, attr_set, KeyEntry, Policy, Principal, KDB_REQUIRES_HW_AUTH};
use vstd::prelude::*;
use vstd::string::*;

verus! {

/// A pre-authentication module that is always there.
#[derive(Clone, Copy, Debug, PartialEq, Eq, Structural)]
pub enum Builtin {
    /// FAST.
    Fast,
    /// PKINIT.
    Pkinit,
    /// SPAKE.
    Spake,
    /// Encrypted challenge.
    EncChallenge,
    /// Encrypted timestamp.
    EncTs,
}

impl Builtin {
    /// The module's name.
    pub fn name(self) -> (r: &'static str)
        ensures
            r@ == (match self {
                Builtin::Fast => "fast"@,
                Builtin::Pkinit => "pkinit"@,
                Builtin::Spake => "spake"@,
                Builtin::EncChallenge => "encrypted-challenge"@,
                Builtin::EncTs => "enc-timestamp"@,
            }),
    {
        match self {
            Builtin::Fast => "fast",
            Builtin::Pkinit => "pkinit",
            Builtin::Spake => "spake",
            Builtin::EncChallenge => "encrypted-challenge",
            Builtin::EncTs => "enc-timestamp",
        }
    }

    /// The type of the data that the module reads.
    pub fn pa_type(self) -> (r: i32)
        ensures
            r == (match self {
                Builtin::Fast => PA_FX_FAST,
                Builtin::Pkinit => PA_PK_AS_REQ,
                Builtin::Spake => PA_SPAKE,
                Builtin::EncChallenge => PA_ENCRYPTED_CHALLENGE,
                Builtin::EncTs => PA_ENC_TIMESTAMP,
            }),
    {
        match self {
            Builtin::Fast => PA_FX_FAST,
            Builtin::Pkinit => PA_PK_AS_REQ,
            Builtin::Spake => PA_SPAKE,
            Builtin::EncChallenge => PA_ENCRYPTED_CHALLENGE,
            Builtin::EncTs => PA_ENC_TIMESTAMP,
        }
    }

    /// The module stands for hardware.
    pub open spec fn is_hardware(self) -> bool {
        self == Builtin::Pkinit
    }

    /// Whether the module stands for hardware.
    pub fn hardware(self) -> (r: bool)
        ensures
            r == self.is_hardware(),
    {
        match self {
            Builtin::Pkinit => true,
            _ => false,
        }
    }

    /// The types that the module offers a client.
    pub open spec fn offers(self, policy: Policy, client: Principal, armor: bool) -> Seq<i32> {
        match self {
            Builtin::Fast => seq![PA_FX_FAST],
            Builtin::Pkinit => if !policy.pkinit {
                Seq::empty()
            } else if attr_set(client.attributes, KDB_REQUIRES_HW_AUTH) {
                seq![PA_PK_AS_REQ]
            } else {
                seq![PA_PK_AS_REQ, PA_PKINIT_KX]
            },
            Builtin::Spake => if policy.spake_preauth_groups@.len() == 0 {
                Seq::empty()
            } else {
                seq![PA_SPAKE]
            },
            Builtin::EncChallenge => if !armor || client.keys@.len() == 0 {
                Seq::empty()
            } else {
                seq![PA_ENCRYPTED_CHALLENGE]
            },
            Builtin::EncTs => if armor {
                Seq::empty()
            } else {
                seq![PA_ENC_TIMESTAMP]
            },
        }
    }

    /// The types that the module offers a client.
    pub fn advertise(self, policy: &Policy, client: &Principal, armor: bool) -> (r: Vec<i32>)
        ensures
            r@ == self.offers(*policy, *client, armor),
    {
        let mut out: Vec<i32> = Vec::new();
        match self {
            Builtin::Fast => {
                out.push(PA_FX_FAST);
            },
            Builtin::Pkinit => {
                if policy.pkinit {
                    out.push(PA_PK_AS_REQ);
                    if !attr(client, KDB_REQUIRES_HW_AUTH) {
                        out.push(PA_PKINIT_KX);
                    }
                }
            },
            Builtin::Spake => {
                if policy.spake_preauth_groups.len() > 0 {
                    out.push(PA_SPAKE);
                }
            },
            Builtin::EncChallenge => {
                if armor && client.keys.len() > 0 {
                    out.push(PA_ENCRYPTED_CHALLENGE);
                }
            },
            Builtin::EncTs => {
                if !armor {
                    out.push(PA_ENC_TIMESTAMP);
                }
            },
        }
        proof {
            assert(out@ =~= self.offers(*policy, *client, armor));
        }
        out
    }
}

/// What a pre-authentication module that was added offers a client.
pub struct ExtraOffer {
    /// The module is called as the FAST module is.
    pub named_fast: bool,
    /// The module stands for hardware.
    pub hardware: bool,
    /// What it offers.
    pub offer: Vec<PaData>,
}

/// What a datum says.
pub open spec fn pa_view(d: PaData) -> (i32, Seq<u8>) {
    (d.padata_type, d.padata_value@)
}

/// What data say.
pub open spec fn pa_views(v: Seq<PaData>) -> Seq<(i32, Seq<u8>)> {
    v.map_values(|d: PaData| pa_view(d))
}

/// Types with empty values.
pub open spec fn empty_data(types: Seq<i32>) -> Seq<(i32, Seq<u8>)> {
    types.map_values(|t: i32| (t, Seq::<u8>::empty()))
}

/// A module is asked: where the client must use hardware, only modules that
/// stand for hardware are.
pub open spec fn is_asked(hw_only: bool, hardware: bool) -> bool {
    !hw_only || hardware
}

/// What a built-in module adds to the list.
pub open spec fn builtin_part(
    m: Builtin,
    policy: Policy,
    client: Principal,
    armor: bool,
) -> Seq<(i32, Seq<u8>)> {
    if is_asked(attr_set(client.attributes, KDB_REQUIRES_HW_AUTH), m.is_hardware()) {
        empty_data(m.offers(policy, client, armor))
    } else {
        Seq::empty()
    }
}

/// What modules that were added add to the list.
pub open spec fn extra_part(extra: Seq<ExtraOffer>, hw_only: bool) -> Seq<(i32, Seq<u8>)>
    decreases extra.len(),
{
    if extra.len() == 0 {
        Seq::empty()
    } else {
        let front = extra_part(extra.drop_last(), hw_only);
        let x = extra.last();
        if !x.named_fast && is_asked(hw_only, x.hardware) {
            front + pa_views(x.offer@)
        } else {
            front
        }
    }
}

/// The list of pre-authentication types: FAST first, then what each built-in
/// module offers, then what each module that was added offers.
pub open spec fn offered(
    policy: Policy,
    client: Principal,
    armor: bool,
    extra: Seq<ExtraOffer>,
) -> Seq<(i32, Seq<u8>)> {
    empty_data(seq![PA_FX_FAST]) + builtin_part(Builtin::Pkinit, policy, client, armor)
        + builtin_part(Builtin::Spake, policy, client, armor) + builtin_part(
        Builtin::EncChallenge,
        policy,
        client,
        armor,
    ) + builtin_part(Builtin::EncTs, policy, client, armor) + extra_part(
        extra,
        attr_set(client.attributes, KDB_REQUIRES_HW_AUTH),
    )
}

/// Adds types with empty values.
fn put_types(out: &mut Vec<PaData>, types: &[i32])
    ensures
        pa_views(final(out)@) == pa_views(old(out)@) + empty_data(types@),
{
    let ghost before = pa_views(out@);
    let ghost want = empty_data(types@);
    let mut i: usize = 0;
    proof {
        assert(before + want.take(0) =~= before);
    }
    while i < types.len()
        invariant
            i <= types@.len(),
            want == empty_data(types@),
            pa_views(out@) == before + want.take(i as int),
        decreases types@.len() - i,
    {
        let ghost mid = out@;
        let d = PaData { padata_type: types[i], padata_value: Vec::new() };
        proof {
            assert(pa_view(d) == want[i as int]) by {
                assert(d.padata_value@ =~= Seq::<u8>::empty());
            }
        }
        out.push(d);
        proof {
            assert(pa_views(out@) =~= pa_views(mid).push(want[i as int]));
            assert(pa_views(out@) =~= before + want.take(i + 1));
        }
        i = i + 1;
    }
    proof {
        assert(want.take(want.len() as int) =~= want);
    }
}

/// Adds what a built-in module offers.
fn put_builtin(out: &mut Vec<PaData>, m: Builtin, policy: &Policy, client: &Principal, armor: bool)
    ensures
        pa_views(final(out)@) == pa_views(old(out)@) + builtin_part(m, *policy, *client, armor),
{
    if !attr(client, KDB_REQUIRES_HW_AUTH) || m.hardware() {
        let types = m.advertise(policy, client, armor);
        put_types(out, types.as_slice());
    }
    proof {
        assert(pa_views(out@) =~= pa_views(old(out)@) + builtin_part(m, *policy, *client, armor));
    }
}

/// Adds data.
fn put_data(out: &mut Vec<PaData>, v: &[PaData])
    ensures
        pa_views(final(out)@) == pa_views(old(out)@) + pa_views(v@),
{
    let ghost before = pa_views(out@);
    let ghost want = pa_views(v@);
    let mut i: usize = 0;
    proof {
        assert(before + want.take(0) =~= before);
    }
    while i < v.len()
        invariant
            i <= v@.len(),
            want == pa_views(v@),
            pa_views(out@) == before + want.take(i as int),
        decreases v@.len() - i,
    {
        let ghost mid = out@;
        out.push(
            PaData {
                padata_type: v[i].padata_type,
                padata_value: copy(v[i].padata_value.as_slice()),
            },
        );
        proof {
            assert(pa_views(out@) =~= pa_views(mid).push(want[i as int]));
            assert(pa_views(out@) =~= before + want.take(i + 1));
        }
        i = i + 1;
    }
    proof {
        assert(want.take(want.len() as int) =~= want);
    }
}

/// The list of pre-authentication types.
pub fn advertise_preauth(policy: &Policy, client: &Principal, armor: bool, extra: &[ExtraOffer]) -> (
r: Vec<PaData>)
    ensures
        pa_views(r@) == offered(*policy, *client, armor, extra@),
{
    let hw_only: bool = attr(client, KDB_REQUIRES_HW_AUTH);
    let mut out: Vec<PaData> = Vec::new();
    let mut first: Vec<i32> = Vec::new();
    first.push(PA_FX_FAST);
    proof {
        assert(first@ =~= seq![PA_FX_FAST]);
    }
    put_types(&mut out, first.as_slice());
    proof {
        assert(pa_views(out@) =~= empty_data(seq![PA_FX_FAST]));
    }
    put_builtin(&mut out, Builtin::Pkinit, policy, client, armor);
    put_builtin(&mut out, Builtin::Spake, policy, client, armor);
    put_builtin(&mut out, Builtin::EncChallenge, policy, client, armor);
    put_builtin(&mut out, Builtin::EncTs, policy, client, armor);
    let ghost front = pa_views(out@);
    let mut i: usize = 0;
    proof {
        assert(front + extra_part(extra@.take(0), hw_only) =~= front);
    }
    while i < extra.len()
        invariant
            i <= extra@.len(),
            pa_views(out@) == front + extra_part(extra@.take(i as int), hw_only),
        decreases extra@.len() - i,
    {
        proof {
            assert(extra@.take(i + 1).drop_last() =~= extra@.take(i as int));
            assert(extra@.take(i + 1).last() == extra@[i as int]);
        }
        if !extra[i].named_fast && (!hw_only || extra[i].hardware) {
            put_data(&mut out, extra[i].offer.as_slice());
            proof {
                assert(pa_views(out@) =~= front + extra_part(extra@.take(i + 1), hw_only));
            }
        }
        i = i + 1;
    }
    proof {
        assert(extra@.take(extra@.len() as int) =~= extra@);
    }
    out
}

/// A client that must use hardware is offered nothing of the built-in modules
/// but FAST and PKINIT.
pub proof fn law_hardware_only(policy: Policy, client: Principal, armor: bool)
    requires
        attr_set(client.attributes, KDB_REQUIRES_HW_AUTH),
    ensures
        offered(policy, client, armor, Seq::empty()) == (if policy.pkinit {
            empty_data(seq![PA_FX_FAST, PA_PK_AS_REQ])
        } else {
            empty_data(seq![PA_FX_FAST])
        }),
{
    let r = offered(policy, client, armor, Seq::empty());
    if policy.pkinit {
        assert(r =~= empty_data(seq![PA_FX_FAST, PA_PK_AS_REQ]));
    } else {
        assert(r =~= empty_data(seq![PA_FX_FAST]));
    }
}

/// What a module made of a request, and the attempt that is recorded for it:
/// a success, a failure or none.
pub struct ModuleRun {
    /// What it made of the request.
    pub action: Result<Option<PreauthAction>, Error>,
    /// The attempt that is recorded.
    pub attempt: Option<bool>,
}

/// What PKINIT makes of a request: `out` is the reply key, the reply datum, and
/// whether the client signed, where the request was for it.
pub open spec fn pkinit_result(
    out: Result<Option<(EncryptionKey, PaData, bool)>, Error>,
    r: ModuleRun,
) -> bool {
    match out {
        Ok(Some((key, pa, signed))) => r.action == Ok::<Option<PreauthAction>, Error>(
            Some(PreauthAction::Pkinit { key, pa, signed }),
        ) && r.attempt == Some(true),
        Ok(None) => r.action == Ok::<Option<PreauthAction>, Error>(None) && r.attempt is None,
        Err(e) => r.action == Err::<Option<PreauthAction>, Error>(e) && r.attempt == Some(false),
    }
}

/// A run of PKINIT that answers is an attempt that succeeded, one that fails is an
/// attempt that did not, and one that a request was not for is none.
pub proof fn law_pkinit_is_an_attempt(
    out: Result<Option<(EncryptionKey, PaData, bool)>, Error>,
    r: ModuleRun,
)
    requires
        pkinit_result(out, r),
    ensures
        r.attempt == Some(true) <==> out matches Ok(Some(_)),
        r.attempt == Some(false) <==> out is Err,
        r.action is Err <==> out is Err,
        r.action matches Ok(Some(a)) ==> a matches PreauthAction::Pkinit { key, pa, signed } && out
            == Ok::<Option<(EncryptionKey, PaData, bool)>, Error>(Some((key, pa, signed))),
        r.action == Ok::<Option<PreauthAction>, Error>(None) <==> out == Ok::<
            Option<(EncryptionKey, PaData, bool)>,
            Error,
        >(None),
{
}

/// What PKINIT makes of a request.
pub fn pkinit_run(out: Result<Option<(EncryptionKey, PaData, bool)>, Error>) -> (r: ModuleRun)
    ensures
        pkinit_result(out, r),
{
    match out {
        Ok(Some((key, pa, signed))) => ModuleRun {
            action: Ok(Some(PreauthAction::Pkinit { key, pa, signed })),
            attempt: Some(true),
        },
        Ok(None) => ModuleRun { action: Ok(None), attempt: None },
        Err(e) => ModuleRun { action: Err(e), attempt: Some(false) },
    }
}

/// A step of SPAKE.
pub enum SpakeStep {
    /// The module asks for more.
    Challenge(Vec<u8>),
    /// The client proved who it is, with this reply key.
    Done(EncryptionKey),
}

/// What SPAKE makes of a request.
pub open spec fn spake_result(out: Result<Option<SpakeStep>, Error>, r: ModuleRun) -> bool {
    match out {
        Ok(Some(SpakeStep::Challenge(d))) => r.action == Ok::<Option<PreauthAction>, Error>(
            Some(PreauthAction::Challenge(d)),
        ) && r.attempt is None,
        Ok(Some(SpakeStep::Done(k))) => r.action == Ok::<Option<PreauthAction>, Error>(
            Some(PreauthAction::SpakeDone(k)),
        ) && r.attempt == Some(true),
        Ok(None) => r.action == Ok::<Option<PreauthAction>, Error>(None) && r.attempt is None,
        Err(e) => r.action == Err::<Option<PreauthAction>, Error>(e) && r.attempt == Some(false),
    }
}

/// SPAKE is an attempt once it is done or fails; a challenge on the way is none.
pub proof fn law_spake_is_an_attempt_when_done(
    out: Result<Option<SpakeStep>, Error>,
    r: ModuleRun,
)
    requires
        spake_result(out, r),
    ensures
        r.attempt == Some(true) <==> out matches Ok(Some(SpakeStep::Done(_))),
        r.attempt == Some(false) <==> out is Err,
        r.action matches Ok(Some(PreauthAction::SpakeDone(k))) ==> out == Ok::<
            Option<SpakeStep>,
            Error,
        >(Some(SpakeStep::Done(k))),
        r.action matches Ok(Some(PreauthAction::Challenge(d))) ==> out == Ok::<
            Option<SpakeStep>,
            Error,
        >(Some(SpakeStep::Challenge(d))),
        r.action == Ok::<Option<PreauthAction>, Error>(None) <==> out == Ok::<
            Option<SpakeStep>,
            Error,
        >(None),
{
}

/// What SPAKE makes of a request.
pub fn spake_run(out: Result<Option<SpakeStep>, Error>) -> (r: ModuleRun)
    ensures
        spake_result(out, r),
{
    match out {
        Ok(Some(SpakeStep::Challenge(d))) => ModuleRun {
            action: Ok(Some(PreauthAction::Challenge(d))),
            attempt: None,
        },
        Ok(Some(SpakeStep::Done(k))) => ModuleRun {
            action: Ok(Some(PreauthAction::SpakeDone(k))),
            attempt: Some(true),
        },
        Ok(None) => ModuleRun { action: Ok(None), attempt: None },
        Err(e) => ModuleRun { action: Err(e), attempt: Some(false) },
    }
}

/// The key at `i` is tried on a timestamp that names this type, if the type is known.
pub open spec fn is_tried(policy: Policy, keys: Seq<KeyEntry>, declared: i32, i: int) -> bool {
    0 <= i < keys.len() && policy.knows(declared) && keys[i].etype == declared
}

/// `v` is what checking a timestamp in the client's key at `i` gave.
pub open spec fn key_tried<
    D: Fn(&Vec<u8>) -> Result<EncryptedData, Error>,
    O: Fn(&EncryptionKey, u32, &Vec<u8>) -> Result<ClientTime, Error>,
    S: Fn(&String, &String, u32, i32, &Vec<u8>) -> bool,
>(
    policy: Policy,
    realm: Seq<char>,
    client: Principal,
    blob: Vec<u8>,
    now: u32,
    decode: D,
    open: O,
    seen: S,
    i: int,
    v: Result<(), Error>,
) -> bool {
    exists|k: EncryptionKey|
        key_octets(k) == client.keys@[i].octets() && #[trigger] enc_timestamp_result(
            policy,
            realm,
            client,
            k,
            blob,
            now,
            decode,
            open,
            seen,
            v,
        )
}

/// What trying the client's keys from `i` on comes to, where the last failure so far is
/// `last`: keys of the type that the timestamp names are tried in order, until one
/// opens it; where none does, the last error counts.
pub open spec fn tries_result<
    D: Fn(&Vec<u8>) -> Result<EncryptedData, Error>,
    O: Fn(&EncryptionKey, u32, &Vec<u8>) -> Result<ClientTime, Error>,
    S: Fn(&String, &String, u32, i32, &Vec<u8>) -> bool,
>(
    policy: Policy,
    realm: Seq<char>,
    client: Principal,
    blob: Vec<u8>,
    declared: i32,
    now: u32,
    decode: D,
    open: O,
    seen: S,
    i: int,
    last: Option<Error>,
    r: Result<(), Error>,
) -> bool
    decreases client.keys@.len() - i,
{
    if i >= client.keys@.len() {
        r == (match last {
            Some(e) => Err::<(), Error>(e),
            None => Err(refusal(PREAUTH_FAILED, Status::PreauthFailed)),
        })
    } else if !is_tried(policy, client.keys@, declared, i) {
        tries_result(
            policy,
            realm,
            client,
            blob,
            declared,
            now,
            decode,
            open,
            seen,
            i + 1,
            last,
            r,
        )
    } else {
        exists|v: Result<(), Error>| #[trigger]
            key_tried(policy, realm, client, blob, now, decode, open, seen, i, v) && (match v {
                Ok(()) => r == Ok::<(), Error>(()),
                Err(e) => tries_result(
                    policy,
                    realm,
                    client,
                    blob,
                    declared,
                    now,
                    decode,
                    open,
                    seen,
                    i + 1,
                    Some(e),
                    r,
                ),
            })
    }
}

/// Tries the client's keys from `i` on.
fn try_keys<
    D: Fn(&Vec<u8>) -> Result<EncryptedData, Error>,
    O: Fn(&EncryptionKey, u32, &Vec<u8>) -> Result<ClientTime, Error>,
    S: Fn(&String, &String, u32, i32, &Vec<u8>) -> bool,
>(
    policy: &Policy,
    realm: &str,
    client: &Principal,
    blob: &Vec<u8>,
    declared: i32,
    now: u32,
    decode: &D,
    open: &O,
    seen: &S,
    i: usize,
    last: Option<Error>,
) -> (r: Result<(), Error>)
    requires
        i <= client.keys@.len(),
        forall|b: Vec<u8>| #[trigger] call_requires(*decode, (&b,)),
        forall|k: EncryptionKey, u: u32, c: Vec<u8>| #[trigger] call_requires(*open, (&k, u, &c)),
        forall|c: String, s: String, t: u32, u: i32, b: Vec<u8>| #[trigger]
            call_requires(*seen, (&c, &s, t, u, &b)),
    ensures
        tries_result(
            *policy,
            realm@,
            *client,
            *blob,
            declared,
            now,
            *decode,
            *open,
            *seen,
            i as int,
            last,
            r,
        ),
    decreases client.keys@.len() - i,
{
    if i >= client.keys.len() {
        return match last {
            Some(e) => Err(e),
            None => Err(proto(PREAUTH_FAILED, Status::PreauthFailed)),
        };
    }
    if !(policy.etype_known(declared) && client.keys[i].etype == declared) {
        return try_keys(
            policy,
            realm,
            client,
            blob,
            declared,
            now,
            decode,
            open,
            seen,
            i + 1,
            last,
        );
    }
    let k = client.keys[i].to_key();
    let v = verify_enc_timestamp(policy, realm, client, &k, blob, now, decode, open, seen);
    proof {
        assert(enc_timestamp_result(
            *policy,
            realm@,
            *client,
            k,
            *blob,
            now,
            *decode,
            *open,
            *seen,
            v,
        ));
        assert(key_tried(
            *policy,
            realm@,
            *client,
            *blob,
            now,
            *decode,
            *open,
            *seen,
            i as int,
            v,
        ));
    }
    match v {
        Ok(()) => Ok(()),
        Err(e) => try_keys(
            policy,
            realm,
            client,
            blob,
            declared,
            now,
            decode,
            open,
            seen,
            i + 1,
            Some(e),
        ),
    }
}

/// What an encrypted timestamp in the padata makes of a request whose outer form reads
/// as `enc`: a verdict goes on record.
pub open spec fn timestamp_run<
    D: Fn(&Vec<u8>) -> Result<EncryptedData, Error>,
    O: Fn(&EncryptionKey, u32, &Vec<u8>) -> Result<ClientTime, Error>,
    S: Fn(&String, &String, u32, i32, &Vec<u8>) -> bool,
>(
    policy: Policy,
    realm: Seq<char>,
    client: Principal,
    blob: Vec<u8>,
    enc: EncryptedData,
    now: u32,
    decode: D,
    open: O,
    seen: S,
    r: ModuleRun,
) -> bool {
    exists|v: Result<(), Error>|
        {
            &&& #[trigger] tries_result(
                policy,
                realm,
                client,
                blob,
                enc.etype,
                now,
                decode,
                open,
                seen,
                0,
                None,
                v,
            )
            &&& r.attempt == Some(v is Ok)
            &&& r.action == (match v {
                Ok(()) => Ok::<Option<PreauthAction>, Error>(Some(PreauthAction::EncTsOk)),
                Err(e) => Err(e),
            })
        }
}

/// What the encrypted timestamp makes of a request: nothing where there is none, or
/// where it does not read as one.
pub open spec fn enc_ts_result<
    D: Fn(&Vec<u8>) -> Result<EncryptedData, Error>,
    O: Fn(&EncryptionKey, u32, &Vec<u8>) -> Result<ClientTime, Error>,
    S: Fn(&String, &String, u32, i32, &Vec<u8>) -> bool,
>(
    policy: Policy,
    realm: Seq<char>,
    client: Principal,
    padata: Seq<PaData>,
    now: u32,
    decode: D,
    open: O,
    seen: S,
    r: ModuleRun,
) -> bool {
    let blob = padata[pa_position(padata, PA_ENC_TIMESTAMP)].padata_value;
    if !has_pa(padata, PA_ENC_TIMESTAMP) {
        r.action == Ok::<Option<PreauthAction>, Error>(None) && r.attempt is None
    } else {
        exists|d: Result<EncryptedData, Error>| #[trigger]
            call_ensures(decode, (&blob,), d) && (match d {
                Err(_) => r.action == Ok::<Option<PreauthAction>, Error>(None) && r.attempt is None,
                Ok(enc) => timestamp_run(
                    policy,
                    realm,
                    client,
                    blob,
                    enc,
                    now,
                    decode,
                    open,
                    seen,
                    r,
                ),
            })
    }
}

/// What the encrypted timestamp makes of a request. `decode` reads its outer form,
/// `open` opens it under a key and a usage, and `seen` keeps the time and says whether
/// it was kept before.
pub fn enc_ts_run<
    D: Fn(&Vec<u8>) -> Result<EncryptedData, Error>,
    O: Fn(&EncryptionKey, u32, &Vec<u8>) -> Result<ClientTime, Error>,
    S: Fn(&String, &String, u32, i32, &Vec<u8>) -> bool,
>(
    policy: &Policy,
    realm: &str,
    client: &Principal,
    padata: &[PaData],
    now: u32,
    decode: &D,
    open: &O,
    seen: &S,
) -> (r: ModuleRun)
    requires
        forall|b: Vec<u8>| #[trigger] call_requires(*decode, (&b,)),
        forall|k: EncryptionKey, u: u32, c: Vec<u8>| #[trigger] call_requires(*open, (&k, u, &c)),
        forall|c: String, s: String, t: u32, u: i32, b: Vec<u8>| #[trigger]
            call_requires(*seen, (&c, &s, t, u, &b)),
    ensures
        enc_ts_result(*policy, realm@, *client, padata@, now, *decode, *open, *seen, r),
{
    let at: usize = match find_pa(padata, PA_ENC_TIMESTAMP) {
        None => {
            return ModuleRun { action: Ok(None), attempt: None };
        },
        Some(i) => i,
    };
    let blob: &Vec<u8> = &padata[at].padata_value;
    let d = decode(blob);
    assert(call_ensures(*decode, (blob,), d));
    let enc = match d {
        Err(_) => {
            return ModuleRun { action: Ok(None), attempt: None };
        },
        Ok(x) => x,
    };
    let v = try_keys(
        policy,
        realm,
        client,
        blob,
        enc.etype,
        now,
        decode,
        open,
        seen,
        0,
        None,
    );
    let ghost verdict = v;
    let r = match v {
        Ok(()) => ModuleRun {
            action: Ok(Some(PreauthAction::EncTsOk)),
            attempt: Some(true),
        },
        Err(e) => ModuleRun { action: Err(e), attempt: Some(false) },
    };
    proof {
        assert(tries_result(
            *policy,
            realm@,
            *client,
            *blob,
            enc.etype,
            now,
            *decode,
            *open,
            *seen,
            0,
            None,
            verdict,
        ));
        assert(timestamp_run(
            *policy,
            realm@,
            *client,
            *blob,
            enc,
            now,
            *decode,
            *open,
            *seen,
            r,
        ));
    }
    r
}

/// A module has an answer: an action or an error.
pub open spec fn answers(r: Result<Option<PreauthAction>, Error>) -> bool {
    !(r matches Ok(None))
}

/// The module at `i` is the first with an answer.
pub open spec fn is_first_answer(v: Seq<Result<Option<PreauthAction>, Error>>, i: int) -> bool {
    0 <= i < v.len() && answers(v[i]) && forall|k: int| 0 <= k < i ==> !answers(#[trigger] v[k])
}

/// Runs the modules in order: the first action or error counts. `runs` holds
/// what each module makes of the request.
pub fn run_as_preauth(runs: Vec<Result<Option<PreauthAction>, Error>>) -> (r: Result<
    Option<PreauthAction>,
    Error,
>)
    ensures
        if exists|i: int| is_first_answer(runs@, i) {
            exists|i: int| is_first_answer(runs@, i) && r == runs@[i]
        } else {
            r == Ok::<Option<PreauthAction>, Error>(None) && forall|k: int|
                0 <= k < runs@.len() ==> !answers(#[trigger] runs@[k])
        },
{
    let ghost all = runs@;
    let mut rest = runs;
    let ghost mut k: int = 0;
    while rest.len() > 0
        invariant
            0 <= k <= all.len(),
            all == runs@,
            rest@ == all.skip(k),
            forall|j: int| 0 <= j < k ==> !answers(#[trigger] all[j]),
        decreases rest@.len(),
    {
        let one = rest.remove(0);
        proof {
            assert(one == all[k]);
            assert(rest@ =~= all.skip(k + 1));
        }
        match one {
            Ok(None) => {},
            Ok(Some(a)) => {
                proof {
                    assert(is_first_answer(all, k));
                }
                return Ok(Some(a));
            },
            Err(e) => {
                proof {
                    assert(is_first_answer(all, k));
                }
                return Err(e);
            },
        }
        proof {
            k = k + 1;
        }
    }
    proof {
        assert forall|j: int| 0 <= j < all.len() implies !answers(#[trigger] all[j]) by {}
    }
    Ok(None)
}

/// A pre-authentication module that counts its calls and does nothing.
pub struct DemoPreauth {
    /// How often it was asked what it offers.
    pub ads: u64,
    /// How often it was given a request.
    pub procs: u64,
}

impl DemoPreauth {
    /// A module that was not called.
    pub fn new() -> (r: DemoPreauth)
        ensures
            r.ads == 0,
            r.procs == 0,
    {
        DemoPreauth { ads: 0, procs: 0 }
    }

    /// Offers nothing.
    pub fn advertise(&mut self) -> (r: Vec<PaData>)
        ensures
            r@.len() == 0,
            final(self).ads == old(self).ads.wrapping_add(1),
            final(self).procs == old(self).procs,
    {
        self.ads = self.ads.wrapping_add(1);
        Vec::new()
    }

    /// Makes nothing of a request.
    pub fn process_as(&mut self) -> (r: Result<Option<PreauthAction>, Error>)
        ensures
            r == Ok::<Option<PreauthAction>, Error>(None),
            final(self).procs == old(self).procs.wrapping_add(1),
            final(self).ads == old(self).ads,
    {
        self.procs = self.procs.wrapping_add(1);
        Ok(None)
    }
}

/// A ticket policy module.
pub trait KdcPolicy {
    /// Judges an AS request; an error refuses it.
    fn check_as(&mut self, client: &Principal, indicators: &[String]) -> (r: Result<(), Error>);

    /// Judges a TGS request; an error refuses it.
    fn check_tgs(&mut self, sname: &crate::name::PrincipalName, indicators: &[String]) -> (r:
        Result<(), Error>);
}

/// The policy that refuses nothing.
pub struct DefaultPolicy;

impl KdcPolicy for DefaultPolicy {
    fn check_as(&mut self, client: &Principal, indicators: &[String]) -> (r: Result<(), Error>)
        ensures
            r is Ok,
    {
        Ok(())
    }

    fn check_tgs(&mut self, sname: &crate::name::PrincipalName, indicators: &[String]) -> (r:
        Result<(), Error>)
        ensures
            r is Ok,
    {
        Ok(())
    }
}

/// The policy that refuses everything.
pub struct DenyPolicy;

impl KdcPolicy for DenyPolicy {
    fn check_as(&mut self, client: &Principal, indicators: &[String]) -> (r: Result<(), Error>)
        ensures
            r == Err::<(), Error>(refusal(POLICY, Status::Kdcpolicy)),
    {
        Err(proto(POLICY, Status::Kdcpolicy))
    }

    fn check_tgs(&mut self, sname: &crate::name::PrincipalName, indicators: &[String]) -> (r:
        Result<(), Error>)
        ensures
            r == Err::<(), Error>(refusal(POLICY, Status::Kdcpolicy)),
    {
        Err(proto(POLICY, Status::Kdcpolicy))
    }
}

/// The policy that counts its calls and refuses nothing.
pub struct DemoPolicy {
    /// AS requests judged.
    pub as_checks: u64,
    /// TGS requests judged.
    pub tgs_checks: u64,
}

impl Default for DemoPolicy {
    fn default() -> (r: DemoPolicy)
        ensures
            r.as_checks == 0,
            r.tgs_checks == 0,
    {
        DemoPolicy { as_checks: 0, tgs_checks: 0 }
    }
}

impl KdcPolicy for DemoPolicy {
    fn check_as(&mut self, client: &Principal, indicators: &[String]) -> (r: Result<(), Error>)
        ensures
            r is Ok,
            final(self).as_checks == old(self).as_checks.wrapping_add(1),
            final(self).tgs_checks == old(self).tgs_checks,
    {
        self.as_checks = self.as_checks.wrapping_add(1);
        Ok(())
    }

    fn check_tgs(&mut self, sname: &crate::name::PrincipalName, indicators: &[String]) -> (r:
        Result<(), Error>)
        ensures
            r is Ok,
            final(self).tgs_checks == old(self).tgs_checks.wrapping_add(1),
            final(self).as_checks == old(self).as_checks,
    {
        self.tgs_checks = self.tgs_checks.wrapping_add(1);
        Ok(())
    }
}

/// Installs the policy for the process.
pub fn set_policy<T>(s: &mut Slots<T>, p: T)
    ensures
        final(s).process == Some(p),
        final(s).thread == old(s).thread,
{
    s.process = Some(p);
}

/// Installs the policy for the thread.
pub fn set_thread_policy<T>(s: &mut Slots<T>, p: T)
    ensures
        final(s).thread == Some(p),
        final(s).process == old(s).process,
{
    s.thread = Some(p);
}

/// Drops the policy for the thread.
pub fn clear_thread_policy<T>(s: &mut Slots<T>)
    ensures
        final(s).thread is None,
        final(s).process == old(s).process,
{
    s.thread = None;
}

/// The policy in force.
pub fn current_policy<'a, T>(s: &'a Slots<T>, usual: &'a T) -> (r: &'a T)
    ensures
        *r == s.in_force(*usual),
{
    s.current(usual)
}

/// Type of the greeting.
pub const GREET_AD_TYPE: i32 = -42;

/// The greeting.
pub const GREET_TEXT: [u8; 33] = [
    0x48, 0x65, 0x6c, 0x6c, 0x6f, 0x2c, 0x20, 0x4b, 0x44, 0x43, 0x20, 0x69, 0x73, 0x73, 0x75, 0x65,
    0x64, 0x20, 0x61, 0x63, 0x63, 0x65, 0x70, 0x74, 0x6f, 0x72, 0x20, 0x77, 0x6f, 0x72, 0x6c, 0x64,
    0x21,
];

/// The module that puts a greeting into tickets.
pub struct GreetAuth;

/// What an element of authorization data says.
pub open spec fn ad_view(d: AuthDatum) -> (i32, Seq<u8>) {
    (d.ad_type, d.ad_data@)
}

/// What the greeting makes of a ticket's authorization data: it is put in front in
/// a TGS request, where session key and issuer are known.
pub open spec fn greeted(
    is_tgs: bool,
    session: bool,
    issuer: bool,
    wrapped: Result<Vec<u8>, Error>,
    before: Seq<AuthDatum>,
    after: Seq<AuthDatum>,
    r: Result<(), Error>,
) -> bool {
    if !is_tgs || !session || !issuer {
        r == Ok::<(), Error>(()) && after == before
    } else {
        match wrapped {
            Ok(w) => r == Ok::<(), Error>(()) && after == seq![
                AuthDatum { ad_type: AD_IF_RELEVANT, ad_data: w },
            ] + before,
            Err(e) => r == Err::<(), Error>(e) && after == before,
        }
    }
}

/// A greeting goes in front of what is there, which stays; where it cannot be made
/// nothing changes, and in an AS request there is none.
pub proof fn law_greeting_goes_in_front(
    is_tgs: bool,
    session: bool,
    issuer: bool,
    wrapped: Result<Vec<u8>, Error>,
    before: Seq<AuthDatum>,
    after: Seq<AuthDatum>,
    r: Result<(), Error>,
)
    requires
        greeted(is_tgs, session, issuer, wrapped, before, after, r),
    ensures
        after.len() >= before.len(),
        after.skip(after.len() - before.len()) == before,
        after.len() == before.len() + 1 <==> is_tgs && session && issuer && wrapped is Ok,
        after.len() > before.len() ==> after[0].ad_type == 1 && Ok::<Vec<u8>, Error>(
            after[0].ad_data,
        ) == wrapped,
        r is Err <==> is_tgs && session && issuer && wrapped is Err,
        after.len() <= before.len() + 1,
{
    assert(after.skip(after.len() - before.len()) =~= before);
}

impl GreetAuth {
    /// The module's name.
    pub fn name(&self) -> (r: &'static str)
        ensures
            r@ == "greet"@,
    {
        "greet"
    }

    /// The greeting as an element.
    pub fn element(&self) -> (r: AuthDatum)
        ensures
            ad_view(r) == (GREET_AD_TYPE, GREET_TEXT@),
    {
        AuthDatum { ad_type: GREET_AD_TYPE, ad_data: copy(&GREET_TEXT) }
    }

    /// Puts the greeting in front of a ticket's authorization data. `wrapped`
    /// is the greeting as the KDC issues it, encoded; it is there only in a
    /// TGS request, and where session key and issuer are known.
    pub fn handle(
        &self,
        is_tgs: bool,
        reply: &mut Vec<AuthDatum>,
        session: bool,
        issuer: bool,
        wrapped: Result<Vec<u8>, Error>,
    ) -> (r: Result<(), Error>)
        ensures
            greeted(is_tgs, session, issuer, wrapped, old(reply)@, final(reply)@, r),
    {
        if !is_tgs || !session || !issuer {
            return Ok(());
        }
        match wrapped {
            Ok(w) => {
                reply.insert(0, AuthDatum { ad_type: AD_IF_RELEVANT, ad_data: w });
                proof {
                    assert(reply@ =~= seq![AuthDatum { ad_type: AD_IF_RELEVANT, ad_data: w }]
                        + old(reply)@);
                }
                Ok(())
            },
            Err(e) => Err(e),
        }
    }
}

/// What a client that need not use hardware is offered: FAST first and always,
/// PKINIT where it is provisioned, SPAKE where there are groups, an encrypted
/// challenge inside FAST to a client with a key, and an encrypted timestamp
/// outside it.
pub proof fn law_client_is_offered(policy: Policy, client: Principal, armor: bool)
    requires
        client.attributes & KDB_REQUIRES_HW_AUTH == 0,
    ensures
        ({
            let none = Seq::<u8>::empty();
            let l = offered(policy, client, armor, Seq::empty());
            &&& l.len() > 0 && l[0] == (PA_FX_FAST, none)
            &&& l.contains((PA_PK_AS_REQ, none)) <==> policy.pkinit
            &&& l.contains((PA_PKINIT_KX, none)) <==> policy.pkinit
            &&& l.contains((PA_SPAKE, none)) <==> policy.spake_preauth_groups@.len() > 0
            &&& l.contains((PA_ENCRYPTED_CHALLENGE, none)) <==> armor && client.keys@.len() > 0
            &&& l.contains((PA_ENC_TIMESTAMP, none)) <==> !armor
        }),
{
    let none = Seq::<u8>::empty();
    let l = offered(policy, client, armor, Seq::empty());
    let a = empty_data(seq![PA_FX_FAST]);
    let b = builtin_part(Builtin::Pkinit, policy, client, armor);
    let c = builtin_part(Builtin::Spake, policy, client, armor);
    let d = builtin_part(Builtin::EncChallenge, policy, client, armor);
    let e = builtin_part(Builtin::EncTs, policy, client, armor);
    assert(l =~= a + b + c + d + e);
    let x = a.len() + b.len();
    let y = x + c.len();
    let z = y + d.len();
    if policy.pkinit {
        assert(b[0] == (PA_PK_AS_REQ, none) && b[1] == (PA_PKINIT_KX, none));
        assert(l[1] == b[0] && l[2] == b[1]);
    }
    if c.len() > 0 {
        assert(c[0] == (PA_SPAKE, none));
        assert(l[x as int] == c[0]);
    }
    if d.len() > 0 {
        assert(d[0] == (PA_ENCRYPTED_CHALLENGE, none));
        assert(l[y as int] == d[0]);
    }
    if e.len() > 0 {
        assert(e[0] == (PA_ENC_TIMESTAMP, none));
        assert(l[z as int] == e[0]);
    }
    assert forall|i: int| 0 <= i < l.len() implies {
        ||| l[i].0 == PA_FX_FAST
        ||| policy.pkinit && (l[i].0 == PA_PK_AS_REQ || l[i].0 == PA_PKINIT_KX)
        ||| policy.spake_preauth_groups@.len() > 0 && l[i].0 == PA_SPAKE
        ||| armor && client.keys@.len() > 0 && l[i].0 == PA_ENCRYPTED_CHALLENGE
        ||| !armor && l[i].0 == PA_ENC_TIMESTAMP
    } by {
        if i < a.len() {
            assert(l[i] == a[i]);
        } else if i < x {
            assert(l[i] == b[i - a.len()]);
        } else if i < y {
            assert(l[i] == c[i - x]);
        } else if i < z {
            assert(l[i] == d[i - y]);
        } else {
            assert(l[i] == e[i - z]);
        }
    }
}

/// A module that was added offers what it offers behind those before it, unless it
/// is called as the FAST module is, or the client must use hardware and it is
/// none.
pub proof fn law_added_module_offers(extra: Seq<ExtraOffer>, x: ExtraOffer, hw_only: bool)
    ensures
        extra_part(Seq::empty(), hw_only).len() == 0,
        !x.named_fast && (!hw_only || x.hardware) ==> extra_part(extra.push(x), hw_only)
            == extra_part(extra, hw_only) + pa_views(x.offer@),
        x.named_fast || (hw_only && !x.hardware) ==> extra_part(extra.push(x), hw_only)
            == extra_part(extra, hw_only),
{
    assert(extra.push(x).drop_last() =~= extra);
}

/// A timestamp that one of the client's keys of its type opens is accepted,
/// whichever keys failed before.
pub proof fn law_one_key_is_enough<
    D: Fn(&Vec<u8>) -> Result<EncryptedData, Error>,
    O: Fn(&EncryptionKey, u32, &Vec<u8>) -> Result<ClientTime, Error>,
    S: Fn(&String, &String, u32, i32, &Vec<u8>) -> bool,
>(
    policy: Policy,
    realm: Seq<char>,
    client: Principal,
    blob: Vec<u8>,
    declared: i32,
    now: u32,
    decode: D,
    open: O,
    seen: S,
    i: int,
    last: Option<Error>,
    r: Result<(), Error>,
    k: int,
)
    requires
        0 <= i <= k < client.keys@.len(),
        policy.known_enctypes@.contains(declared),
        client.keys@[k].etype == declared,
        forall|v: Result<(), Error>| #[trigger]
            key_tried(policy, realm, client, blob, now, decode, open, seen, k, v) ==> v is Ok,
        tries_result(
            policy,
            realm,
            client,
            blob,
            declared,
            now,
            decode,
            open,
            seen,
            i,
            last,
            r,
        ),
    ensures
        r is Ok,
    decreases k - i,
{
    if i < k {
        if is_tried(policy, client.keys@, declared, i) {
            let v = choose|v: Result<(), Error>| #[trigger]
                key_tried(policy, realm, client, blob, now, decode, open, seen, i, v) && (match v {
                    Ok(()) => r == Ok::<(), Error>(()),
                    Err(e) => tries_result(
                        policy,
                        realm,
                        client,
                        blob,
                        declared,
                        now,
                        decode,
                        open,
                        seen,
                        i + 1,
                        Some(e),
                        r,
                    ),
                });
            if let Err(e) = v {
                law_one_key_is_enough(
                    policy,
                    realm,
                    client,
                    blob,
                    declared,
                    now,
                    decode,
                    open,
                    seen,
                    i + 1,
                    Some(e),
                    r,
                    k,
                );
            }
        } else {
            law_one_key_is_enough(
                policy,
                realm,
                client,
                blob,
                declared,
                now,
                decode,
                open,
                seen,
                i + 1,
                last,
                r,
                k,
            );
        }
    } else {
        assert(is_tried(policy, client.keys@, declared, k));
    }
}

/// A timestamp of a type of which the client has no key is refused.
pub proof fn law_no_key_refuses<
    D: Fn(&Vec<u8>) -> Result<EncryptedData, Error>,
    O: Fn(&EncryptionKey, u32, &Vec<u8>) -> Result<ClientTime, Error>,
    S: Fn(&String, &String, u32, i32, &Vec<u8>) -> bool,
>(
    policy: Policy,
    realm: Seq<char>,
    client: Principal,
    blob: Vec<u8>,
    declared: i32,
    now: u32,
    decode: D,
    open: O,
    seen: S,
    i: int,
    r: Result<(), Error>,
)
    requires
        0 <= i,
        forall|k: int|
            0 <= k < client.keys@.len() ==> (#[trigger] client.keys@[k]).etype != declared,
        tries_result(
            policy,
            realm,
            client,
            blob,
            declared,
            now,
            decode,
            open,
            seen,
            i,
            None,
            r,
        ),
    ensures
        r == Err::<(), Error>(refusal(PREAUTH_FAILED, Status::PreauthFailed)),
    decreases client.keys@.len() - i,
{
    if i < client.keys@.len() {
        assert(client.keys@[i].etype != declared);
        law_no_key_refuses(
            policy,
            realm,
            client,
            blob,
            declared,
            now,
            decode,
            open,
            seen,
            i + 1,
            r,
        );
    }
}

/// Of the modules the first that has an answer or fails counts.
pub proof fn law_first_answer_is_one(
    v: Seq<Result<Option<PreauthAction>, Error>>,
    i: int,
    j: int,
)
    requires
        is_first_answer(v, i),
        is_first_answer(v, j),
    ensures
        i == j,
        v[i] != Ok::<Option<PreauthAction>, Error>(None),
        forall|k: int| 0 <= k < i ==> #[trigger] v[k] == Ok::<Option<PreauthAction>, Error>(None),
{
    if i < j {
        assert(!answers(v[i]));
    } else if j < i {
        assert(!answers(v[j]));
    }
}

/// Where no encrypted timestamp is there, or it cannot be read, the module has no
/// answer and nothing goes on record; otherwise an attempt does.
pub proof fn law_timestamp_is_an_attempt<
    D: Fn(&Vec<u8>) -> Result<EncryptedData, Error>,
    O: Fn(&EncryptionKey, u32, &Vec<u8>) -> Result<ClientTime, Error>,
    S: Fn(&String, &String, u32, i32, &Vec<u8>) -> bool,
>(
    policy: Policy,
    realm: Seq<char>,
    client: Principal,
    padata: Seq<PaData>,
    now: u32,
    decode: D,
    open: O,
    seen: S,
    r: ModuleRun,
)
    requires
        enc_ts_result(policy, realm, client, padata, now, decode, open, seen, r),
    ensures
        (forall|i: int| 0 <= i < padata.len() ==> (#[trigger] padata[i]).padata_type != 2)
            ==> r.action == Ok::<Option<PreauthAction>, Error>(None) && r.attempt is None,
        r.attempt is None <==> r.action == Ok::<Option<PreauthAction>, Error>(None),
        r.attempt == Some(true) <==> r.action == Ok::<Option<PreauthAction>, Error>(
            Some(PreauthAction::EncTsOk),
        ),
        r.attempt == Some(false) <==> r.action is Err,
{
}

} // verus!
