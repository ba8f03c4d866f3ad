//! The header of a TGS request from beginning to end: its ticket is opened,
//! then its authenticator, and the two are judged. What opens them comes in as
//! functions.

use crate::ad::{CksumOutcome, CksumType};
use crate::error::{
    proto, refusal, Error, Status, BAD_INTEGRITY, GENERIC, POLICY, S_PRINCIPAL_UNKNOWN,
};
use crate::issue::kdc_util::{
    find_server_key, is_fault, is_server_key, judge_tgs_header, no_server_key, spec_tgs_header,
    usable_key, AuthElement, Authenticator, HeaderOptions,
};
use crate::issue::mint::KU_TICKET;
use crate::kdb::PrincipalRead;
use crate::msg::{key_octets, EncTicketPart, EncryptedData, EncryptionKey, HostAddress, Ticket};
use crate::name::{lookup_principal_id, spec_lookup_principal_id};
use crate::store::{
    attr, attr_set, Policy, Principal, KDB_DISALLOW_ALL_TIX, KDB_DISALLOW_SVR,
};
use vstd::prelude::*;

verus! {

/// Key usage of the checksum in the authenticator of a TGS request.
pub const KU_TGS_REQ_AUTH_CKSUM: u32 = 6;

/// Key usage of the authenticator of a TGS request.
pub const KU_TGS_REQ_AUTHENTICATOR: u32 = 7;

/// A ticket that was opened.
pub struct OpenedTicket {
    /// Its encrypted part.
    pub part: EncTicketPart,
    /// Its authorization data as they nest.
    pub nested: Option<Vec<AuthElement>>,
}

/// `open` gave `o` for what a ticket has encrypted, under this key of `p`.
pub open spec fn key_tried<T: Fn(&EncryptionKey, u32, &Vec<u8>) -> Option<OpenedTicket>>(
    p: Principal,
    t: Ticket,
    open: T,
    i: int,
    o: Option<OpenedTicket>,
) -> bool {
    exists|k: EncryptionKey|
        key_octets(k) == p.keys@[i].octets() && #[trigger] call_ensures(
            open,
            (&k, KU_TICKET, &t.enc_part.cipher),
            o,
        )
}

/// What trying keys on the header ticket comes to, at most `tries` versions from
/// `kvno` down. Only a ticket that names no version is tried under more than
/// one.
pub open spec fn header_key<T: Fn(&EncryptionKey, u32, &Vec<u8>) -> Option<OpenedTicket>>(
    policy: Policy,
    p: Principal,
    t: Ticket,
    want: Option<i32>,
    kvno: u32,
    tries: nat,
    open: T,
    r: Result<(usize, OpenedTicket), Error>,
) -> bool
    decreases tries,
{
    let named = t.enc_part.kvno matches Some(v) && v != 0;
    if no_server_key(policy, p, want, kvno) {
        if named || kvno <= 1 || tries <= 1 {
            r matches Err(e) && e == refusal(GENERIC, Status::ProcessTgs)
        } else {
            header_key(policy, p, t, want, (kvno - 1) as u32, (tries - 1) as nat, open, r)
        }
    } else {
        exists|i: int, o: Option<OpenedTicket>|
            {
                &&& is_server_key(policy, p, want, kvno, i)
                &&& #[trigger] key_tried(p, t, open, i, o)
                &&& match o {
                    Some(x) => r matches Ok(k) && k.0 == i && k.1 == x,
                    None => if named || p.keys@[i].kvno <= 1 || tries <= 1 {
                        r matches Err(e) && e == refusal(BAD_INTEGRITY, Status::ProcessTgs)
                    } else {
                        header_key(
                            policy,
                            p,
                            t,
                            want,
                            (p.keys@[i].kvno - 1) as u32,
                            (tries - 1) as nat,
                            open,
                            r,
                        )
                    },
                }
            }
    }
}

/// Tries the keys of `p` on the header ticket.
fn try_header_keys<T: Fn(&EncryptionKey, u32, &Vec<u8>) -> Option<OpenedTicket>>(
    policy: &Policy,
    p: &Principal,
    t: &Ticket,
    want: Option<i32>,
    kvno: u32,
    tries: u32,
    open: &T,
) -> (r: Result<(usize, OpenedTicket), Error>)
    requires
        forall|k: EncryptionKey, u: u32, c: Vec<u8>| #[trigger] call_requires(*open, (&k, u, &c)),
    ensures
        header_key(*policy, *p, *t, want, kvno, tries as nat, *open, r),
    decreases tries,
{
    let named: bool = match t.enc_part.kvno {
        Some(v) => v != 0,
        None => false,
    };
    match find_server_key(policy, p, want, kvno) {
        Some(i) => {
            proof {
                assert(!no_server_key(*policy, *p, want, kvno)) by {
                    let k = p.keys@[i as int];
                    assert(usable_key(*policy, *p, want, i as int));
                }
            }
            let found: u32 = p.keys[i].kvno;
            let k = p.keys[i].to_key();
            let o = open(&k, KU_TICKET, &t.enc_part.cipher);
            proof {
                assert(key_tried(*p, *t, *open, i as int, o));
                assert(p.keys@[i as int].kvno == found);
            }
            match o {
                Some(x) => Ok((i, x)),
                None => {
                    if named || found <= 1 || tries <= 1 {
                        return Err(proto(BAD_INTEGRITY, Status::ProcessTgs));
                    }
                    try_header_keys(policy, p, t, want, found - 1, tries - 1, open)
                },
            }
        },
        None => {
            if named || kvno <= 1 || tries <= 1 {
                return Err(proto(GENERIC, Status::ProcessTgs));
            }
            try_header_keys(policy, p, t, want, kvno - 1, tries - 1, open)
        },
    }
}

/// The enctype that the key of a ticket must have: any where the ticket is of
/// the local ticket-granting service, else its own.
pub open spec fn searched_enctype(t: Ticket) -> Option<i32> {
    if t.sname@.is_krbtgt_for(t.realm@) {
        None
    } else {
        Some(t.enc_part.etype)
    }
}

/// The version that a ticket names, or none.
pub open spec fn named_kvno(t: Ticket) -> u32 {
    match t.enc_part.kvno {
        Some(v) => v,
        None => 0,
    }
}

/// What opening the header ticket comes to: its server, the place of the key
/// that opened it, and what was in it.
pub open spec fn presented_result<
    S: PrincipalRead,
    T: Fn(&EncryptionKey, u32, &Vec<u8>) -> Option<OpenedTicket>,
>(
    store: &S,
    t: Ticket,
    open: T,
    r: Result<(&Principal, usize, OpenedTicket), Error>,
) -> bool {
    match store.lookup(spec_lookup_principal_id(t.sname@, t.realm@)) {
        Err(e) => r matches Err(x) && x == e,
        Ok(None) => r matches Err(x) && x == refusal(S_PRINCIPAL_UNKNOWN, Status::ProcessTgs),
        Ok(Some(p)) => if attr_set(p.attributes, KDB_DISALLOW_ALL_TIX) || attr_set(
            p.attributes,
            KDB_DISALLOW_SVR,
        ) {
            r matches Err(x) && x == refusal(S_PRINCIPAL_UNKNOWN, Status::ProcessTgs)
        } else {
            exists|k: Result<(usize, OpenedTicket), Error>|
                {
                    &&& #[trigger] header_key(
                        store.policy_view(),
                        p,
                        t,
                        searched_enctype(t),
                        named_kvno(t),
                        3,
                        open,
                        k,
                    )
                    &&& match k {
                        Err(e) => r matches Err(x) && x == e,
                        Ok(o) => r matches Ok(y) && *y.0 == p && y.1 == o.0 && y.2 == o.1,
                    }
                }
        },
    }
}

/// Finds the header ticket's server and opens the ticket with its keys. `open`
/// decrypts and decodes what a ticket has encrypted, under a key and a usage.
pub fn decrypt_presented_tgt<
    'a,
    S: PrincipalRead,
    T: Fn(&EncryptionKey, u32, &Vec<u8>) -> Option<OpenedTicket>,
>(store: &'a S, t: &Ticket, open: &T) -> (r: Result<(&'a Principal, usize, OpenedTicket), Error>)
    requires
        forall|k: EncryptionKey, u: u32, c: Vec<u8>| #[trigger] call_requires(*open, (&k, u, &c)),
    ensures
        presented_result(store, *t, *open, r),
{
    let id = lookup_principal_id(&t.sname, t.realm.as_str());
    let p = match store.fetch(id.as_str()) {
        Err(e) => {
            return Err(e);
        },
        Ok(None) => {
            return Err(proto(S_PRINCIPAL_UNKNOWN, Status::ProcessTgs));
        },
        Ok(Some(p)) => p,
    };
    if attr(p, KDB_DISALLOW_ALL_TIX) || attr(p, KDB_DISALLOW_SVR) {
        return Err(proto(S_PRINCIPAL_UNKNOWN, Status::ProcessTgs));
    }
    let want: Option<i32> = if t.sname.is_krbtgt_for(t.realm.as_str()) {
        None
    } else {
        Some(t.enc_part.etype)
    };
    let kvno: u32 = match t.enc_part.kvno {
        Some(v) => v,
        None => 0,
    };
    let k = try_header_keys(store.policy(), p, t, want, kvno, 3, open);
    proof {
        assert(header_key(
            store.policy_view(),
            *p,
            *t,
            searched_enctype(*t),
            named_kvno(*t),
            3,
            *open,
            k,
        ));
    }
    match k {
        Err(e) => Err(e),
        Ok((i, o)) => Ok((p, i, o)),
    }
}

/// Whatever opened the header ticket is a permitted key of its server that does
/// open it.
pub proof fn law_header_key_opens<T: Fn(&EncryptionKey, u32, &Vec<u8>) -> Option<OpenedTicket>>(
    policy: Policy,
    p: Principal,
    t: Ticket,
    want: Option<i32>,
    kvno: u32,
    tries: nat,
    open: T,
    r: Result<(usize, OpenedTicket), Error>,
)
    requires
        header_key(policy, p, t, want, kvno, tries, open, r),
    ensures
        r matches Ok(k) ==> usable_key(policy, p, want, k.0 as int) && key_tried(
            p,
            t,
            open,
            k.0 as int,
            Some(k.1),
        ),
    decreases tries,
{
    let named = t.enc_part.kvno matches Some(v) && v != 0;
    if no_server_key(policy, p, want, kvno) {
        if !(named || kvno <= 1 || tries <= 1) {
            law_header_key_opens(
                policy,
                p,
                t,
                want,
                (kvno - 1) as u32,
                (tries - 1) as nat,
                open,
                r,
            );
        }
    } else {
        let (i, o) = choose|i: int, o: Option<OpenedTicket>|
            {
                &&& is_server_key(policy, p, want, kvno, i)
                &&& #[trigger] key_tried(p, t, open, i, o)
                &&& match o {
                    Some(x) => r matches Ok(k) && k.0 == i && k.1 == x,
                    None => if named || p.keys@[i].kvno <= 1 || tries <= 1 {
                        r matches Err(e) && e == refusal(BAD_INTEGRITY, Status::ProcessTgs)
                    } else {
                        header_key(
                            policy,
                            p,
                            t,
                            want,
                            (p.keys@[i].kvno - 1) as u32,
                            (tries - 1) as nat,
                            open,
                            r,
                        )
                    },
                }
            };
        if o is None && !(named || p.keys@[i].kvno <= 1 || tries <= 1) {
            law_header_key_opens(
                policy,
                p,
                t,
                want,
                (p.keys@[i].kvno - 1) as u32,
                (tries - 1) as nat,
                open,
                r,
            );
        }
    }
}

/// The header of a TGS request, opened and found good.
pub struct HeaderTgt<'a> {
    /// The ticket's encrypted part.
    pub enc_tkt: EncTicketPart,
    /// Place of the key that opened it among its server's.
    pub tgt_key: usize,
    /// The authenticator.
    pub authenticator: Authenticator,
    /// The ticket's server.
    pub header_server: &'a Principal,
}

/// `read` gave `a` for the authenticator, under the session key of a ticket that
/// was opened.
pub open spec fn authenticator_read<
    A: Fn(&EncryptionKey, u32, &EncryptedData) -> Result<Authenticator, Error>,
>(
    part: EncTicketPart,
    sealed: EncryptedData,
    read: A,
    a: Result<Authenticator, Error>,
) -> bool {
    call_ensures(read, (&part.key, KU_TGS_REQ_AUTHENTICATOR, &sealed), a)
}

/// `check` gave `o` for the authenticator's checksum over the request body, under
/// the session key of the ticket; without a checksum nothing is checked.
pub open spec fn body_checked<
    H: Fn(&EncryptionKey, u32, &Vec<u8>, i32, &Vec<u8>) -> CksumOutcome,
>(
    part: EncTicketPart,
    body: Vec<u8>,
    a: Result<Authenticator, Error>,
    check: H,
    o: CksumOutcome,
) -> bool {
    match a {
        Ok(auth) => match auth.cksum {
            Some(ck) => call_ensures(
                check,
                (&part.key, KU_TGS_REQ_AUTH_CKSUM, &body, ck.cksumtype, &ck.checksum),
                o,
            ),
            None => true,
        },
        Err(_) => true,
    }
}

/// What a header comes to whose ticket was opened and whose authenticator was
/// read.
pub open spec fn header_judged(
    policy: Policy,
    types: Seq<CksumType>,
    options: HeaderOptions,
    server: Principal,
    at: usize,
    opened: OpenedTicket,
    a: Result<Authenticator, Error>,
    outcome: CksumOutcome,
    sender: Option<&HostAddress>,
    now: u32,
    r: Result<HeaderTgt, Error>,
) -> bool {
    let both = match a {
        Ok(x) => Ok((opened.part, x)),
        Err(e) => Err(e),
    };
    match spec_tgs_header(policy, types, options, both, opened.nested, outcome, sender, now) {
        Err(f) => r matches Err(x) && is_fault(f, x),
        Ok(()) => r matches Ok(h) && h.enc_tkt == opened.part && a == Ok::<Authenticator, Error>(
            h.authenticator,
        ) && *h.header_server == server && h.tgt_key == at,
    }
}

/// What the header of a TGS request comes to, in the order in which it is
/// judged. `known` is the refusal of a ticket whose enctype is not known.
pub open spec fn tgs_header_result<
    S: PrincipalRead,
    T: Fn(&EncryptionKey, u32, &Vec<u8>) -> Option<OpenedTicket>,
    A: Fn(&EncryptionKey, u32, &EncryptedData) -> Result<Authenticator, Error>,
    H: Fn(&EncryptionKey, u32, &Vec<u8>, i32, &Vec<u8>) -> CksumOutcome,
>(
    store: &S,
    types: Seq<CksumType>,
    options: HeaderOptions,
    t: Ticket,
    known: Result<(), Error>,
    sealed: EncryptedData,
    body: Vec<u8>,
    open: T,
    read: A,
    check: H,
    sender: Option<&HostAddress>,
    now: u32,
    r: Result<HeaderTgt, Error>,
) -> bool {
    if options.use_session_key || options.mutual_required {
        r matches Err(x) && x == refusal(POLICY, Status::ProcessTgs)
    } else if known is Err {
        r matches Err(x) && x == known->Err_0
    } else {
        exists|k: Result<(&Principal, usize, OpenedTicket), Error>|
            {
                &&& #[trigger] presented_result(store, t, open, k)
                &&& match k {
                    Err(e) => r matches Err(x) && x == e,
                    Ok(y) => exists|a: Result<Authenticator, Error>, o: CksumOutcome|
                        {
                            &&& #[trigger] authenticator_read(y.2.part, sealed, read, a)
                            &&& #[trigger] body_checked(y.2.part, body, a, check, o)
                            &&& header_judged(
                                store.policy_view(),
                                types,
                                options,
                                *y.0,
                                y.1,
                                y.2,
                                a,
                                o,
                                sender,
                                now,
                                r,
                            )
                        },
                }
            }
    }
}

/// Opens and judges the header of a TGS request. `open` decrypts and decodes what a
/// ticket has encrypted, under a key and a usage; `read` does the same with the
/// authenticator, under the session key of the ticket; `check` checks the authenticator's checksum over the
/// request body, under that key.
pub fn process_tgs_header<
    'a,
    S: PrincipalRead,
    T: Fn(&EncryptionKey, u32, &Vec<u8>) -> Option<OpenedTicket>,
    A: Fn(&EncryptionKey, u32, &EncryptedData) -> Result<Authenticator, Error>,
    H: Fn(&EncryptionKey, u32, &Vec<u8>, i32, &Vec<u8>) -> CksumOutcome,
>(
    store: &'a S,
    types: &[CksumType],
    options: HeaderOptions,
    t: &Ticket,
    known: Result<(), Error>,
    sealed: &EncryptedData,
    body: &Vec<u8>,
    open: &T,
    read: &A,
    check: &H,
    sender: Option<&HostAddress>,
    now: u32,
) -> (r: Result<HeaderTgt<'a>, Error>)
    requires
        store.policy_view().skew > i64::MIN,
        forall|k: EncryptionKey, u: u32, c: Vec<u8>| #[trigger] call_requires(*open, (&k, u, &c)),
        forall|k: EncryptionKey, u: u32, x: EncryptedData| #[trigger]
            call_requires(*read, (&k, u, &x)),
        forall|k: EncryptionKey, u: u32, b: Vec<u8>, y: i32, m: Vec<u8>| #[trigger]
            call_requires(*check, (&k, u, &b, y, &m)),
    ensures
        tgs_header_result(
            store,
            types@,
            options,
            *t,
            known,
            *sealed,
            *body,
            *open,
            *read,
            *check,
            sender,
            now,
            r,
        ),
{
    if options.use_session_key || options.mutual_required {
        return Err(proto(POLICY, Status::ProcessTgs));
    }
    match known {
        Err(e) => {
            return Err(e);
        },
        Ok(()) => {},
    }
    let k = decrypt_presented_tgt(store, t, open);
    let ghost gk = k;
    proof {
        assert(presented_result(store, *t, *open, gk));
    }
    let (server, at, opened) = match k {
        Err(e) => {
            return Err(e);
        },
        Ok(y) => y,
    };
    let a = read(&opened.part.key, KU_TGS_REQ_AUTHENTICATOR, sealed);
    let ghost ga = a;
    let outcome: CksumOutcome = match &a {
        Ok(auth) => match &auth.cksum {
            Some(ck) => check(
                &opened.part.key,
                KU_TGS_REQ_AUTH_CKSUM,
                body,
                ck.cksumtype,
                &ck.checksum,
            ),
            None => CksumOutcome::Failed,
        },
        Err(_) => CksumOutcome::Failed,
    };
    proof {
        assert(authenticator_read(opened.part, *sealed, *read, ga));
        assert(body_checked(opened.part, *body, ga, *check, outcome));
    }
    let OpenedTicket { part, nested } = opened;
    let both = match a {
        Ok(x) => Ok((part, x)),
        Err(e) => Err(e),
    };
    let j = judge_tgs_header(store.policy(), types, options, both, &nested, outcome, sender, now);
    match j {
        Err(e) => Err(e),
        Ok((enc_tkt, authenticator)) => Ok(
            HeaderTgt { enc_tkt, tgt_key: at, authenticator, header_server: server },
        ),
    }
}

/// A header that is accepted vouches for the request body: its authenticator has a
/// checksum that was checked over the body, under the session key of its ticket,
/// and found right.
pub proof fn law_accepted_header_vouches_for_body<
    S: PrincipalRead,
    T: Fn(&EncryptionKey, u32, &Vec<u8>) -> Option<OpenedTicket>,
    A: Fn(&EncryptionKey, u32, &EncryptedData) -> Result<Authenticator, Error>,
    H: Fn(&EncryptionKey, u32, &Vec<u8>, i32, &Vec<u8>) -> CksumOutcome,
>(
    store: &S,
    types: Seq<CksumType>,
    options: HeaderOptions,
    t: Ticket,
    known: Result<(), Error>,
    sealed: EncryptedData,
    body: Vec<u8>,
    open: T,
    read: A,
    check: H,
    sender: Option<&HostAddress>,
    now: u32,
    h: HeaderTgt,
)
    requires
        tgs_header_result(
            store,
            types,
            options,
            t,
            known,
            sealed,
            body,
            open,
            read,
            check,
            sender,
            now,
            Ok(h),
        ),
    ensures
        h.authenticator.cksum matches Some(ck) && call_ensures(
            check,
            (&h.enc_tkt.key, KU_TGS_REQ_AUTH_CKSUM, &body, ck.cksumtype, &ck.checksum),
            CksumOutcome::Good,
        ),
        call_ensures(
            read,
            (&h.enc_tkt.key, KU_TGS_REQ_AUTHENTICATOR, &sealed),
            Ok::<Authenticator, Error>(h.authenticator),
        ),
{
}

/// A ticket that names a version of its key is opened by that version or not at
/// all; one that names none by the newest key first.
pub proof fn law_named_version_opens<T: Fn(&EncryptionKey, u32, &Vec<u8>) -> Option<OpenedTicket>>(
    policy: Policy,
    p: Principal,
    t: Ticket,
    want: Option<i32>,
    kvno: u32,
    tries: nat,
    open: T,
    r: Result<(usize, OpenedTicket), Error>,
    i: int,
)
    requires
        header_key(policy, p, t, want, kvno, tries, open, r),
        is_server_key(policy, p, want, kvno, i),
    ensures
        (forall|o: Option<OpenedTicket>| #[trigger] key_tried(p, t, open, i, o) ==> o is Some)
            ==> r is Ok && r->Ok_0.0 == i,
        (t.enc_part.kvno matches Some(v) && v != 0) && (forall|o: Option<OpenedTicket>| #[trigger]
            key_tried(p, t, open, i, o) ==> o is None) ==> (r matches Err(e) && e == refusal(
            BAD_INTEGRITY,
            Status::ProcessTgs,
        )),
        (t.enc_part.kvno matches Some(v) && v == kvno && v != 0) && r is Ok
            ==> p.keys@[r->Ok_0.0 as int].kvno == kvno,
{
    let x = p.keys@[i];
    assert(usable_key(policy, p, want, i));
    assert(!no_server_key(policy, p, want, kvno));
    let (n, o) = choose|n: int, o: Option<OpenedTicket>|
        {
            &&& is_server_key(policy, p, want, kvno, n)
            &&& #[trigger] key_tried(p, t, open, n, o)
            &&& match o {
                Some(x) => r matches Ok(k) && k.0 == n && k.1 == x,
                None => if (t.enc_part.kvno matches Some(v) && v != 0) || p.keys@[n].kvno <= 1
                    || tries <= 1 {
                    r matches Err(e) && e == refusal(BAD_INTEGRITY, Status::ProcessTgs)
                } else {
                    header_key(
                        policy,
                        p,
                        t,
                        want,
                        (p.keys@[n].kvno - 1) as u32,
                        (tries - 1) as nat,
                        open,
                        r,
                    )
                },
            }
        };
    let y = p.keys@[n];
    assert(n == i);
}

/// A ticket for the ticket-granting service of its own realm may be under a key of
/// any type, and every other under one of its own; its server must be there and be
/// one that tickets are given for.
pub proof fn law_presented_server_is_in_service<
    S: PrincipalRead,
    T: Fn(&EncryptionKey, u32, &Vec<u8>) -> Option<OpenedTicket>,
>(
    store: &S,
    t: Ticket,
    open: T,
    r: Result<(&Principal, usize, OpenedTicket), Error>,
)
    requires
        presented_result(store, t, open, r),
    ensures
        searched_enctype(t) is None <==> t.sname@.components == seq!["krbtgt"@, t.realm@],
        searched_enctype(t) matches Some(e) ==> e == t.enc_part.etype,
        t.enc_part.kvno matches Some(v) ==> named_kvno(t) == v,
        t.enc_part.kvno is None ==> named_kvno(t) == 0,
        r matches Ok(y) ==> {
            &&& store.lookup(spec_lookup_principal_id(t.sname@, t.realm@)) == Ok::<
                Option<Principal>,
                Error,
            >(Some(*y.0))
            &&& y.0.attributes & KDB_DISALLOW_ALL_TIX == 0
            &&& y.0.attributes & KDB_DISALLOW_SVR == 0
        },
        store.lookup(spec_lookup_principal_id(t.sname@, t.realm@)) matches Ok(Some(p)) ==> (
        p.attributes & KDB_DISALLOW_ALL_TIX != 0 || p.attributes & KDB_DISALLOW_SVR != 0) ==> (r
            matches Err(x) && x == refusal(S_PRINCIPAL_UNKNOWN, Status::ProcessTgs)),
        store.lookup(spec_lookup_principal_id(t.sname@, t.realm@)) == Ok::<
            Option<Principal>,
            Error,
        >(None) ==> (r matches Err(x) && x == refusal(S_PRINCIPAL_UNKNOWN, Status::ProcessTgs)),
{
    if t.sname@.is_krbtgt_for(t.realm@) {
        assert(t.sname@.components =~= seq!["krbtgt"@, t.realm@]);
    }
}

/// A header that asks for mutual authentication or for the session key as ticket
/// key is refused before its ticket is opened, and so is one whose checksum type is
/// not known.
pub proof fn law_header_options_are_refused<
    S: PrincipalRead,
    T: Fn(&EncryptionKey, u32, &Vec<u8>) -> Option<OpenedTicket>,
    A: Fn(&EncryptionKey, u32, &EncryptedData) -> Result<Authenticator, Error>,
    H: Fn(&EncryptionKey, u32, &Vec<u8>, i32, &Vec<u8>) -> CksumOutcome,
>(
    store: &S,
    types: Seq<CksumType>,
    options: HeaderOptions,
    t: Ticket,
    known: Result<(), Error>,
    sealed: EncryptedData,
    body: Vec<u8>,
    open: T,
    read: A,
    check: H,
    sender: Option<&HostAddress>,
    now: u32,
    r: Result<HeaderTgt, Error>,
)
    requires
        tgs_header_result(
            store,
            types,
            options,
            t,
            known,
            sealed,
            body,
            open,
            read,
            check,
            sender,
            now,
            r,
        ),
    ensures
        options.use_session_key ==> r is Err && r->Err_0 == refusal(POLICY, Status::ProcessTgs),
        options.mutual_required ==> r is Err && r->Err_0 == refusal(POLICY, Status::ProcessTgs),
        known matches Err(e) ==> !options.use_session_key && !options.mutual_required ==> r is Err
            && r->Err_0 == e,
        !options.use_session_key && !options.mutual_required && known is Ok ==> exists|
            k: Result<(&Principal, usize, OpenedTicket), Error>,
        |
            #[trigger] presented_result(store, t, open, k) && (k is Err ==> r is Err && r->Err_0
                == k->Err_0),
{
}

} // verus!
