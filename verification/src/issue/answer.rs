//! Answering a request from beginning to end: what is opened, made and encoded
//! under a key comes in as functions.

use crate::error::Error;
use crate::flags::{Flags, ANONYMOUS};
use crate::issue::as_req::{
    as_lookup_result, as_plan_result, finish_preauth, finish_process_as_req, lookup_client,
    preauth_result, recorded_attempt, AsLookup, AsPlan, AsPreauth, IssueOutcome, PreauthAction,
    PreauthInput,
};
use crate::issue::assemble::{as_session, as_session_result, AsSession};
use crate::issue::client_time::{
    enc_challenge_result, kdc_challenge_result, kdc_encrypted_challenge,
    verify_encrypted_challenge, ClientTime,
};
use crate::issue::kdc_util::i32_slice;
use crate::issue::reply::FastFacts;
use crate::kdb::PrincipalRead;
use crate::msg::{
    find_pa, has_pa, key_octets, pa_position, EncryptedData, EncryptionKey, KdcReqBody, PaData,
    PA_ENCRYPTED_CHALLENGE,
};
use crate::name::{NameView, PrincipalName};
use crate::store::{KeyEntry, Policy, Principal};
use vstd::prelude::*;

verus! {

/// What pre-authentication came to in the modules.
#[derive(Debug, PartialEq, Eq)]
pub struct PreauthOutcome {
    /// What the modules made of the padata.
    pub module: Result<Option<PreauthAction>, Error>,
    /// The list of pre-authentication types.
    pub hint: Vec<u8>,
    /// The description of the client's key, where it can be encoded.
    pub info2: Option<Vec<u8>>,
}

/// The padata that pre-authentication works on: those inside the FAST layer, where
/// there is one.
pub open spec fn working_padata<'a>(fast: Option<&FastFacts<'a>>, outer: &'a [PaData]) -> &'a [PaData] {
    match fast {
        Some(f) => f.padata,
        None => outer,
    }
}

/// An AS request that is answered with a ticket.
pub struct AsIssue<'a> {
    /// Client, server and keys.
    pub lookup: AsLookup<'a>,
    /// Pre-authentication.
    pub pre: AsPreauth,
    /// The ticket and the reply.
    pub plan: AsPlan<'a>,
}

/// What came of an encrypted challenge: the verdict, and the KDC's half of it.
pub struct ChallengeRun {
    /// The verdict.
    pub verdict: Result<(), Error>,
    /// The KDC's half, of a challenge that was accepted.
    pub reply: Result<PaData, Error>,
}

/// The input of pre-authentication that an outcome makes.
pub open spec fn preauth_input<'a>(
    padata: &'a [PaData],
    fast: bool,
    o: PreauthOutcome,
    c: ChallengeRun,
) -> PreauthInput<'a> {
    PreauthInput {
        padata,
        fast,
        module: o.module,
        challenge: c.verdict,
        challenge_reply: c.reply,
        hint: o.hint,
        info2: o.info2,
    }
}

/// The encrypted challenge of a request is looked at: it is inside a FAST layer, it
/// says anything, the client may be the one that is asked for, and no module had
/// an answer.
pub open spec fn challenge_is_due(
    req_cname: NameView,
    o: Flags,
    fast: bool,
    padata: Seq<PaData>,
    module: Result<Option<PreauthAction>, Error>,
) -> bool {
    &&& fast
    &&& !(o.has(ANONYMOUS as int) && !req_cname.is_anonymous())
    &&& module matches Ok(a) && a is None
    &&& has_pa(padata, PA_ENCRYPTED_CHALLENGE)
    &&& padata[pa_position(padata, PA_ENCRYPTED_CHALLENGE)].padata_value@.len() > 0
}

/// The place of the encrypted challenge, where it is looked at.
fn due_challenge(
    req_cname: &PrincipalName,
    o: Flags,
    fast: bool,
    padata: &[PaData],
    module: &Result<Option<PreauthAction>, Error>,
) -> (r: Option<usize>)
    ensures
        match r {
            Some(i) => challenge_is_due(req_cname@, o, fast, padata@, *module) && i < padata@.len()
                && i == pa_position(padata@, PA_ENCRYPTED_CHALLENGE),
            None => !challenge_is_due(req_cname@, o, fast, padata@, *module),
        },
{
    if !fast || (o.bit(ANONYMOUS) && !req_cname.is_anonymous()) {
        return None;
    }
    let unanswered: bool = match module {
        Ok(None) => true,
        _ => false,
    };
    if !unanswered {
        return None;
    }
    match find_pa(padata, PA_ENCRYPTED_CHALLENGE) {
        Some(i) => if padata[i].padata_value.len() > 0 {
            Some(i)
        } else {
            None
        },
        None => None,
    }
}

/// What an encrypted challenge comes to: it is judged under the client's key, and the
/// KDC answers one that it accepts.
pub open spec fn challenge_judged<
    D: Fn(&Vec<u8>) -> Result<EncryptedData, Error>,
    C: Fn(&EncryptionKey, &EncryptionKey, &str, &str) -> Result<EncryptionKey, Error>,
    O: Fn(&EncryptionKey, u32, &Vec<u8>) -> Result<ClientTime, Error>,
    Q: Fn(&String, &String, u32, i32, &Vec<u8>) -> bool,
    E: Fn(&EncryptionKey, u32, &ClientTime) -> Result<Vec<u8>, Error>,
    N: Fn(&EncryptedData) -> Result<Vec<u8>, Error>,
>(
    policy: Policy,
    realm: Seq<char>,
    client: Principal,
    key: EncryptionKey,
    armor: EncryptionKey,
    blob: Vec<u8>,
    now: u32,
    decode: D,
    combine: C,
    open: O,
    seen: Q,
    seal: E,
    encode: N,
    c: ChallengeRun,
) -> bool {
    &&& enc_challenge_result(
        policy,
        realm,
        client,
        key,
        armor,
        blob,
        now,
        decode,
        combine,
        open,
        seen,
        c.verdict,
    )
    &&& c.verdict is Ok ==> kdc_challenge_result(armor, key, now, combine, seal, encode, c.reply)
}

/// `c` is what came of the encrypted challenge of a request, where it is looked at.
pub open spec fn challenge_result<
    D: Fn(&Vec<u8>) -> Result<EncryptedData, Error>,
    C: Fn(&EncryptionKey, &EncryptionKey, &str, &str) -> Result<EncryptionKey, Error>,
    O: Fn(&EncryptionKey, u32, &Vec<u8>) -> Result<ClientTime, Error>,
    Q: Fn(&String, &String, u32, i32, &Vec<u8>) -> bool,
    E: Fn(&EncryptionKey, u32, &ClientTime) -> Result<Vec<u8>, Error>,
    N: Fn(&EncryptedData) -> Result<Vec<u8>, Error>,
>(
    policy: Policy,
    realm: Seq<char>,
    k: AsLookup,
    o: Flags,
    fast: Option<&FastFacts>,
    padata: Seq<PaData>,
    module: Result<Option<PreauthAction>, Error>,
    now: u32,
    decode: D,
    combine: C,
    open: O,
    seen: Q,
    seal: E,
    encode: N,
    c: ChallengeRun,
) -> bool {
    challenge_is_due(k.req_cname@, o, fast is Some, padata, module) ==> exists|key: EncryptionKey|
        {
            &&& key_octets(key) == k.client.keys@[k.ckey as int].octets()
            &&& #[trigger] challenge_judged(
                policy,
                realm,
                *k.client,
                key,
                *fast->0.armor_key,
                padata[pa_position(padata, PA_ENCRYPTED_CHALLENGE)].padata_value,
                now,
                decode,
                combine,
                open,
                seen,
                seal,
                encode,
                c,
            )
        }
}

/// Judges the encrypted challenge of a request, where it is looked at.
fn run_challenge<
    D: Fn(&Vec<u8>) -> Result<EncryptedData, Error>,
    C: Fn(&EncryptionKey, &EncryptionKey, &str, &str) -> Result<EncryptionKey, Error>,
    O: Fn(&EncryptionKey, u32, &Vec<u8>) -> Result<ClientTime, Error>,
    Q: Fn(&String, &String, u32, i32, &Vec<u8>) -> bool,
    E: Fn(&EncryptionKey, u32, &ClientTime) -> Result<Vec<u8>, Error>,
    N: Fn(&EncryptedData) -> Result<Vec<u8>, Error>,
>(
    policy: &Policy,
    realm: &str,
    k: &AsLookup,
    o: Flags,
    fast: Option<&FastFacts>,
    padata: &[PaData],
    module: &Result<Option<PreauthAction>, Error>,
    now: u32,
    decode: &D,
    combine: &C,
    open: &O,
    seen: &Q,
    seal: &E,
    encode: &N,
) -> (c: ChallengeRun)
    requires
        k.ckey < k.client.keys@.len(),
        forall|b: Vec<u8>| #[trigger] call_requires(*decode, (&b,)),
        forall|a: EncryptionKey, b: EncryptionKey, p: &str, q: &str| #[trigger]
            call_requires(*combine, (&a, &b, p, q)),
        forall|k: EncryptionKey, u: u32, c: Vec<u8>| #[trigger] call_requires(*open, (&k, u, &c)),
        forall|c: String, s: String, t: u32, u: i32, b: Vec<u8>| #[trigger]
            call_requires(*seen, (&c, &s, t, u, &b)),
        forall|k: EncryptionKey, u: u32, t: ClientTime| #[trigger]
            call_requires(*seal, (&k, u, &t)),
        forall|x: EncryptedData| #[trigger] call_requires(*encode, (&x,)),
    ensures
        challenge_result(
            *policy,
            realm@,
            *k,
            o,
            fast,
            padata@,
            *module,
            now,
            *decode,
            *combine,
            *open,
            *seen,
            *seal,
            *encode,
            c,
        ),
{
    let none = ChallengeRun {
        verdict: Ok(()),
        reply: Ok(PaData { padata_type: PA_ENCRYPTED_CHALLENGE, padata_value: Vec::new() }),
    };
    let f = match fast {
        Some(f) => f,
        None => {
            return none;
        },
    };
    let i: usize = match due_challenge(&k.req_cname, o, true, padata, module) {
        Some(i) => i,
        None => {
            return none;
        },
    };
    let key = k.client.keys[k.ckey].to_key();
    let blob: &Vec<u8> = &padata[i].padata_value;
    let verdict = verify_encrypted_challenge(
        policy,
        realm,
        k.client,
        &key,
        f.armor_key,
        blob,
        now,
        decode,
        combine,
        open,
        seen,
    );
    let c = match verdict {
        Err(e) => ChallengeRun { verdict: Err(e), reply: none.reply },
        Ok(()) => ChallengeRun {
            verdict: Ok(()),
            reply: kdc_encrypted_challenge(f.armor_key, &key, now, combine, seal, encode),
        },
    };
    assert(challenge_judged(
        *policy,
        realm@,
        *k.client,
        key,
        *f.armor_key,
        *blob,
        now,
        *decode,
        *combine,
        *open,
        *seen,
        *seal,
        *encode,
        c,
    ));
    c
}

/// `s` is what came of making the session key of a request: a key of the chosen
/// type is drawn, which an anonymous client's is combined from.
pub open spec fn as_session_made<
    F: Fn(i32) -> Result<EncryptionKey, Error>,
    X: Fn(&EncryptionKey, u32, &EncryptionKey) -> Result<Vec<u8>, Error>,
    C: Fn(&EncryptionKey, &EncryptionKey, &str, &str) -> Result<EncryptionKey, Error>,
>(
    k: AsLookup,
    p: AsPreauth,
    fresh: F,
    exchange: X,
    combine: C,
    s: Result<AsSession, Error>,
) -> bool {
    exists|drawn: Result<EncryptionKey, Error>| #[trigger]
        call_ensures(fresh, (k.session_etype,), drawn) && as_session_result(
            drawn,
            p.anonymous,
            p.as_rep_key,
            exchange,
            combine,
            s,
        )
}

/// What an authenticated AS request comes to.
pub open spec fn as_last_result<
    S: PrincipalRead,
    L: Fn(&AsLookup, &AsPreauth) -> IssueOutcome,
    F: Fn(i32) -> Result<EncryptionKey, Error>,
    X: Fn(&EncryptionKey, u32, &EncryptionKey) -> Result<Vec<u8>, Error>,
    T: Fn(&String) -> Option<i32>,
    V: Fn(&EncryptionKey, &str, i32) -> Option<EncryptionKey>,
    C: Fn(&EncryptionKey, &EncryptionKey, &str, &str) -> Result<EncryptionKey, Error>,
>(
    store: &S,
    body: KdcReqBody,
    fast: Option<&FastFacts>,
    padata: &[PaData],
    now: u32,
    last: L,
    fresh: F,
    exchange: X,
    named: T,
    derive: V,
    combine: C,
    k: AsLookup,
    p: AsPreauth,
    r: Result<AsIssue, Error>,
) -> bool {
    exists|s: Result<AsSession, Error>, z: IssueOutcome, q: Result<AsPlan, Error>|
        {
            &&& #[trigger] as_session_made(k, p, fresh, exchange, combine, s)
            &&& #[trigger] call_ensures(last, (&k, &p), z)
            &&& #[trigger] as_plan_result(
                store.policy_view(),
                store.realm_view(),
                body,
                *k.client,
                *k.server,
                k.sname@,
                p,
                padata@,
                fast,
                z,
                s,
                store.lookup(
                    crate::name::spec_lookup_principal_id(
                        crate::name::krbtgt_view(store.realm_view()),
                        store.realm_view(),
                    ),
                ),
                now,
                named,
                derive,
                q,
            )
            &&& match q {
                Err(e) => r matches Err(x) && x == e,
                Ok(plan) => r matches Ok(t) && t.lookup == k && t.pre == p && t.plan == plan,
            }
        }
}

/// What an AS request comes to whose client, server and keys are known. `outer` is
/// the padata outside any FAST layer.
pub open spec fn as_known_result<
    S: PrincipalRead,
    P: Fn(&AsLookup) -> PreauthOutcome,
    R: Fn(&Vec<u8>) -> Vec<PaData>,
    M: Fn(&Vec<PaData>) -> Option<Vec<u8>>,
    D: Fn(&Vec<u8>) -> Result<EncryptedData, Error>,
    C: Fn(&EncryptionKey, &EncryptionKey, &str, &str) -> Result<EncryptionKey, Error>,
    O: Fn(&EncryptionKey, u32, &Vec<u8>) -> Result<ClientTime, Error>,
    Q: Fn(&String, &String, u32, i32, &Vec<u8>) -> bool,
    E: Fn(&EncryptionKey, u32, &ClientTime) -> Result<Vec<u8>, Error>,
    N: Fn(&EncryptedData) -> Result<Vec<u8>, Error>,
    L: Fn(&AsLookup, &AsPreauth) -> IssueOutcome,
    F: Fn(i32) -> Result<EncryptionKey, Error>,
    X: Fn(&EncryptionKey, u32, &EncryptionKey) -> Result<Vec<u8>, Error>,
    T: Fn(&String) -> Option<i32>,
    V: Fn(&EncryptionKey, &str, i32) -> Option<EncryptionKey>,
>(
    store: &S,
    body: KdcReqBody,
    fast: Option<&FastFacts>,
    outer: &[PaData],
    now: u32,
    preauth: P,
    read: R,
    write: M,
    decode: D,
    combine: C,
    open: O,
    seen: Q,
    seal: E,
    encode: N,
    last: L,
    fresh: F,
    exchange: X,
    named: T,
    derive: V,
    k: AsLookup,
    r: (Option<bool>, Result<AsIssue, Error>),
) -> bool {
    exists|o: PreauthOutcome, c: ChallengeRun, j: Result<AsPreauth, Error>|
        {
            &&& #[trigger] call_ensures(preauth, (&k,), o)
            &&& #[trigger] challenge_result(
                store.policy_view(),
                store.realm_view(),
                k,
                body.kdc_options,
                fast,
                working_padata(fast, outer)@,
                o.module,
                now,
                decode,
                combine,
                open,
                seen,
                seal,
                encode,
                c,
            )
            &&& r.0 == recorded_attempt(
                k.req_cname@,
                body.kdc_options,
                preauth_input(working_padata(fast, outer), fast is Some, o, c),
            )
            &&& #[trigger] preauth_result(
                store.policy_view(),
                *k.client,
                k.client.keys@[k.ckey as int],
                k.cname@,
                k.req_cname@,
                body.kdc_options,
                preauth_input(working_padata(fast, outer), fast is Some, o, c),
                read,
                write,
                j,
            )
            &&& match j {
                Err(e) => r.1 matches Err(x) && x == e,
                Ok(p) => as_last_result(
                    store,
                    body,
                    fast,
                    outer,
                    now,
                    last,
                    fresh,
                    exchange,
                    named,
                    derive,
                    combine,
                    k,
                    p,
                    r.1,
                ),
            }
        }
}

/// A request has no padata.
pub open spec fn lacks_padata(padata: &[PaData]) -> bool {
    padata@.len() == 0
}

/// What an AS request comes to. The first part of the result is the attempt
/// to put on record.
pub open spec fn as_body_result<
    S: PrincipalRead,
    P: Fn(&AsLookup) -> PreauthOutcome,
    R: Fn(&Vec<u8>) -> Vec<PaData>,
    M: Fn(&Vec<PaData>) -> Option<Vec<u8>>,
    D: Fn(&Vec<u8>) -> Result<EncryptedData, Error>,
    C: Fn(&EncryptionKey, &EncryptionKey, &str, &str) -> Result<EncryptionKey, Error>,
    O: Fn(&EncryptionKey, u32, &Vec<u8>) -> Result<ClientTime, Error>,
    Q: Fn(&String, &String, u32, i32, &Vec<u8>) -> bool,
    E: Fn(&EncryptionKey, u32, &ClientTime) -> Result<Vec<u8>, Error>,
    N: Fn(&EncryptedData) -> Result<Vec<u8>, Error>,
    L: Fn(&AsLookup, &AsPreauth) -> IssueOutcome,
    F: Fn(i32) -> Result<EncryptionKey, Error>,
    X: Fn(&EncryptionKey, u32, &EncryptionKey) -> Result<Vec<u8>, Error>,
    T: Fn(&String) -> Option<i32>,
    V: Fn(&EncryptionKey, &str, i32) -> Option<EncryptionKey>,
>(
    store: &S,
    body: KdcReqBody,
    fast: Option<&FastFacts>,
    outer: &[PaData],
    session_enctypes: Option<Seq<i32>>,
    hint: Vec<u8>,
    word: Seq<char>,
    now: u32,
    preauth: P,
    read: R,
    write: M,
    decode: D,
    combine: C,
    open: O,
    seen: Q,
    seal: E,
    encode: N,
    last: L,
    fresh: F,
    exchange: X,
    named: T,
    derive: V,
    r: (Option<bool>, Result<AsIssue, Error>),
) -> bool {
    exists|l: Result<AsLookup, Error>|
        {
            &&& #[trigger] as_lookup_result(
                store,
                body,
                fast,
                session_enctypes,
                lacks_padata(working_padata(fast, outer)),
                hint,
                word,
                now,
                l,
            )
            &&& match l {
                Err(e) => r.0 is None && (r.1 matches Err(x) && x == e),
                Ok(k) => as_known_result(
                    store,
                    body,
                    fast,
                    outer,
                    now,
                    preauth,
                    read,
                    write,
                    decode,
                    combine,
                    open,
                    seen,
                    seal,
                    encode,
                    last,
                    fresh,
                    exchange,
                    named,
                    derive,
                    k,
                    r,
                ),
            }
        }
}

/// Lays out the answer to an authenticated AS request.
fn conclude_as<
    'a,
    S: PrincipalRead,
    L: Fn(&AsLookup, &AsPreauth) -> IssueOutcome,
    F: Fn(i32) -> Result<EncryptionKey, Error>,
    X: Fn(&EncryptionKey, u32, &EncryptionKey) -> Result<Vec<u8>, Error>,
    T: Fn(&String) -> Option<i32>,
    V: Fn(&EncryptionKey, &str, i32) -> Option<EncryptionKey>,
    C: Fn(&EncryptionKey, &EncryptionKey, &str, &str) -> Result<EncryptionKey, Error>,
>(
    store: &'a S,
    body: &KdcReqBody,
    fast: Option<&FastFacts>,
    outer: &[PaData],
    now: u32,
    last: &L,
    fresh: &F,
    exchange: &X,
    named: &T,
    derive: &V,
    combine: &C,
    k: AsLookup<'a>,
    p: AsPreauth,
) -> (r: Result<AsIssue<'a>, Error>)
    requires
        forall|k: AsLookup, p: AsPreauth| #[trigger] call_requires(*last, (&k, &p)),
        forall|e: i32| #[trigger] call_requires(*fresh, (e,)),
        forall|a: EncryptionKey, u: u32, b: EncryptionKey| #[trigger]
            call_requires(*exchange, (&a, u, &b)),
        forall|x: String| #[trigger] call_requires(*named, (&x,)),
        forall|k: EncryptionKey, l: &str, t: i32| #[trigger] call_requires(*derive, (&k, l, t)),
        forall|a: EncryptionKey, b: EncryptionKey, p: &str, q: &str| #[trigger]
            call_requires(*combine, (&a, &b, p, q)),
    ensures
        as_last_result(
            store,
            *body,
            fast,
            outer,
            now,
            *last,
            *fresh,
            *exchange,
            *named,
            *derive,
            *combine,
            k,
            p,
            r,
        ),
{
    let drawn = fresh(k.session_etype);
    let ghost key = drawn;
    let s = as_session(drawn, p.anonymous, &p.as_rep_key, exchange, combine);
    let ghost made = s;
    let z = last(&k, &p);
    let ghost said = z;
    let q = finish_process_as_req(
        store.policy(),
        store.realm(),
        body,
        k.client,
        k.server,
        &k.sname,
        &p,
        outer,
        fast,
        z,
        s,
        store.fetch_krbtgt(),
        now,
        named,
        derive,
    );
    proof {
        assert(call_ensures(*fresh, (k.session_etype,), key));
        assert(as_session_made(k, p, *fresh, *exchange, *combine, made));
        assert(call_ensures(*last, (&k, &p), said));
    }
    match q {
        Err(e) => Err(e),
        Ok(plan) => Ok(AsIssue { lookup: k, pre: p, plan }),
    }
}

/// Judges an AS request and lays out its answer. `outer` is the padata outside any
/// FAST layer; pre-authentication works on those inside it. Client, server and keys are
/// found, then pre-authentication is judged, then the ticket is laid out.
///
/// `preauth` asks the modules; `read` reads the list in a module's challenge and
/// `write` writes it. `decode`, `combine`, `open` and `seen` serve an encrypted
/// challenge, `seal` and `encode` its answer. `last` asks the policy module; `fresh`
/// draws a key of a type, `exchange` encrypts it for an anonymous client, `named`
/// reads the name of a key type, and `derive` derives a key of another type.
pub fn issue_as_body<
    'a,
    S: PrincipalRead,
    P: Fn(&AsLookup) -> PreauthOutcome,
    R: Fn(&Vec<u8>) -> Vec<PaData>,
    M: Fn(&Vec<PaData>) -> Option<Vec<u8>>,
    D: Fn(&Vec<u8>) -> Result<EncryptedData, Error>,
    C: Fn(&EncryptionKey, &EncryptionKey, &str, &str) -> Result<EncryptionKey, Error>,
    O: Fn(&EncryptionKey, u32, &Vec<u8>) -> Result<ClientTime, Error>,
    Q: Fn(&String, &String, u32, i32, &Vec<u8>) -> bool,
    E: Fn(&EncryptionKey, u32, &ClientTime) -> Result<Vec<u8>, Error>,
    N: Fn(&EncryptedData) -> Result<Vec<u8>, Error>,
    L: Fn(&AsLookup, &AsPreauth) -> IssueOutcome,
    F: Fn(i32) -> Result<EncryptionKey, Error>,
    X: Fn(&EncryptionKey, u32, &EncryptionKey) -> Result<Vec<u8>, Error>,
    T: Fn(&String) -> Option<i32>,
    V: Fn(&EncryptionKey, &str, i32) -> Option<EncryptionKey>,
>(
    store: &'a S,
    body: &KdcReqBody,
    fast: Option<&FastFacts>,
    outer: &[PaData],
    session_enctypes: Option<&[i32]>,
    hint: Vec<u8>,
    word: &str,
    now: u32,
    preauth: P,
    read: R,
    write: M,
    decode: D,
    combine: C,
    open: O,
    seen: Q,
    seal: E,
    encode: N,
    last: L,
    fresh: F,
    exchange: X,
    named: T,
    derive: V,
) -> (r: (Option<bool>, Result<AsIssue<'a>, Error>))
    requires
        forall|k: AsLookup| #[trigger] call_requires(preauth, (&k,)),
        forall|x: Vec<u8>| #[trigger] call_requires(read, (&x,)),
        forall|x: Vec<PaData>| #[trigger] call_requires(write, (&x,)),
        forall|b: Vec<u8>| #[trigger] call_requires(decode, (&b,)),
        forall|a: EncryptionKey, b: EncryptionKey, p: &str, q: &str| #[trigger]
            call_requires(combine, (&a, &b, p, q)),
        forall|k: EncryptionKey, u: u32, c: Vec<u8>| #[trigger] call_requires(open, (&k, u, &c)),
        forall|c: String, s: String, t: u32, u: i32, b: Vec<u8>| #[trigger]
            call_requires(seen, (&c, &s, t, u, &b)),
        forall|k: EncryptionKey, u: u32, t: ClientTime| #[trigger]
            call_requires(seal, (&k, u, &t)),
        forall|x: EncryptedData| #[trigger] call_requires(encode, (&x,)),
        forall|k: AsLookup, p: AsPreauth| #[trigger] call_requires(last, (&k, &p)),
        forall|e: i32| #[trigger] call_requires(fresh, (e,)),
        forall|a: EncryptionKey, u: u32, b: EncryptionKey| #[trigger]
            call_requires(exchange, (&a, u, &b)),
        forall|x: String| #[trigger] call_requires(named, (&x,)),
        forall|k: EncryptionKey, l: &str, t: i32| #[trigger] call_requires(derive, (&k, l, t)),
    ensures
        as_body_result(
            store,
            *body,
            fast,
            outer,
            i32_slice(session_enctypes),
            hint,
            word@,
            now,
            preauth,
            read,
            write,
            decode,
            combine,
            open,
            seen,
            seal,
            encode,
            last,
            fresh,
            exchange,
            named,
            derive,
            r,
        ),
{
    let padata: &[PaData] = match fast {
        Some(f) => f.padata,
        None => outer,
    };
    let l = lookup_client(store, body, fast, padata, session_enctypes, hint, word, now);
    proof {
        assert(as_lookup_result(
            store,
            *body,
            fast,
            i32_slice(session_enctypes),
            lacks_padata(working_padata(fast, outer)),
            hint,
            word@,
            now,
            l,
        ));
    }
    let k = match l {
        Err(e) => {
            return (None, Err(e));
        },
        Ok(k) => k,
    };
    assert(k.ckey < k.client.keys@.len());
    let o = preauth(&k);
    let ghost whole = o;
    let c = run_challenge(
        store.policy(),
        store.realm(),
        &k,
        body.kdc_options,
        fast,
        padata,
        &o.module,
        now,
        &decode,
        &combine,
        &open,
        &seen,
        &seal,
        &encode,
    );
    let ghost ran = c;
    let PreauthOutcome { module, hint, info2 } = o;
    let input = PreauthInput {
        padata,
        fast: fast.is_some(),
        module,
        challenge: c.verdict,
        challenge_reply: c.reply,
        hint,
        info2,
    };
    proof {
        assert(call_ensures(preauth, (&k,), whole));
        assert(input == preauth_input(padata, fast is Some, whole, ran));
        assert(challenge_result(
            store.policy_view(),
            store.realm_view(),
            k,
            body.kdc_options,
            fast,
            working_padata(fast, outer)@,
            whole.module,
            now,
            decode,
            combine,
            open,
            seen,
            seal,
            encode,
            ran,
        ));
    }
    let ckey: &KeyEntry = &k.client.keys[k.ckey];
    let (attempt, judged): (Option<bool>, Result<AsPreauth, Error>) = finish_preauth(
        store.policy(),
        k.client,
        ckey,
        k.cname.copy(),
        &k.req_cname,
        body.kdc_options,
        input,
        &read,
        &write,
    );
    proof {
        assert(preauth_result(
            store.policy_view(),
            *k.client,
            k.client.keys@[k.ckey as int],
            k.cname@,
            k.req_cname@,
            body.kdc_options,
            preauth_input(working_padata(fast, outer), fast is Some, whole, ran),
            read,
            write,
            judged,
        ));
    }
    let p = match judged {
        Err(e) => {
            return (attempt, Err(e));
        },
        Ok(p) => p,
    };
    let r = conclude_as(
        store,
        body,
        fast,
        outer,
        now,
        &last,
        &fresh,
        &exchange,
        &named,
        &derive,
        &combine,
        k,
        p,
    );
    (attempt, r)
}

/// Pre-authentication works on the padata inside the FAST layer, where there is
/// one, and otherwise on those of the request.
pub proof fn law_working_padata(f: FastFacts, outer: &[PaData])
    ensures
        working_padata(Some(&f), outer) == f.padata,
        working_padata(None, outer) == outer,
{
}

/// An encrypted challenge is looked at only inside a FAST layer, only where no
/// module had an answer, and not where an ordinary client asks to be anonymous.
pub proof fn law_challenge_is_looked_at(
    req_cname: NameView,
    o: Flags,
    fast: bool,
    padata: Seq<PaData>,
    module: Result<Option<PreauthAction>, Error>,
)
    ensures
        !fast ==> !challenge_is_due(req_cname, o, fast, padata, module),
        module is Err ==> !challenge_is_due(req_cname, o, fast, padata, module),
        module matches Ok(Some(_)) ==> !challenge_is_due(req_cname, o, fast, padata, module),
        o.has(ANONYMOUS as int) && !req_cname.is_anonymous() ==> !challenge_is_due(
            req_cname,
            o,
            fast,
            padata,
            module,
        ),
        (forall|i: int| 0 <= i < padata.len() ==> (#[trigger] padata[i]).padata_type != 138)
            ==> !challenge_is_due(req_cname, o, fast, padata, module),
        fast && !o.has(ANONYMOUS as int) && module == Ok::<Option<PreauthAction>, Error>(None)
            && padata.len() > 0 && padata[0].padata_type == 138 && padata[0].padata_value@.len() > 0
            ==> challenge_is_due(req_cname, o, fast, padata, module),
{
}

} // verus!
