//! The acceptor's AP-REP and the third leg: which octets are opened, under
//! which key, and what they change.

use crate::bytes::copy_range;
use crate::gss::context::GssContext;
use crate::gss::error::Error;
use crate::gss::oid::{gss_unwrap_app, law_frame_round_trip, oid_and_rest, wrapped_app};
use crate::gss::spnego::TOK_AP_REP;
use crate::msg::EncryptionKey;
use vstd::prelude::*;

verus! {

/// Key usage of the encrypted part of an AP-REP.
pub const KU_AP_REP_ENC_PART: u32 = 12;

/// What the encrypted part of an AP-REP says.
#[derive(Clone, Debug, PartialEq, Eq)]
pub struct RepPart {
    /// The sequence number.
    pub seq_number: Option<u32>,
    /// The subkey.
    pub subkey: Option<EncryptionKey>,
}

/// `cipher` gave `c` for the encrypted part of the AP-REP with these octets.
pub open spec fn rep_read<C: Fn(&Vec<u8>) -> Result<Vec<u8>, Error>>(
    cipher: C,
    rep: Seq<u8>,
    c: Result<Vec<u8>, Error>,
) -> bool {
    exists|x: Vec<u8>| x@ == rep && #[trigger] call_ensures(cipher, (&x,), c)
}

/// `open` gave `p` of `c` under a key.
pub open spec fn rep_opened<O: Fn(&EncryptionKey, u32, &Vec<u8>) -> Result<Vec<u8>, Error>>(
    open: O,
    key: EncryptionKey,
    c: Vec<u8>,
    p: Result<Vec<u8>, Error>,
) -> bool {
    call_ensures(open, (&key, KU_AP_REP_ENC_PART, &c), p)
}

/// What opening the encrypted part of an AP-REP under the ticket's session
/// key, and where that fails under the context's own, comes to.
pub open spec fn either_opened<O: Fn(&EncryptionKey, u32, &Vec<u8>) -> Result<Vec<u8>, Error>>(
    open: O,
    first: EncryptionKey,
    second: EncryptionKey,
    c: Vec<u8>,
    p: Result<Vec<u8>, Error>,
) -> bool {
    ||| p is Ok && rep_opened(open, first, c, p)
    ||| exists|e: Error| #[trigger]
        rep_opened(open, first, c, Err::<Vec<u8>, Error>(e)) && rep_opened(open, second, c, p)
}

/// The AP-REP in a framed token.
pub open spec fn framed_rep(token: Seq<u8>) -> Option<Seq<u8>> {
    match oid_and_rest(token) {
        None => None,
        Some(p) => if p.1.len() < 2 || p.1[0] != TOK_AP_REP@[0] || p.1[1] != TOK_AP_REP@[1] {
            None
        } else {
            Some(p.1.skip(2))
        },
    }
}

/// What reading an AP-REP comes to: `p` is what its encrypted part opened to.
pub open spec fn part_result<P: Fn(&Vec<u8>) -> Result<RepPart, Error>>(
    part: P,
    p: Result<Vec<u8>, Error>,
    r: Result<RepPart, Error>,
) -> bool {
    match p {
        Err(e) => r matches Err(x) && x == e,
        Ok(plain) => call_ensures(part, (&plain,), r),
    }
}

/// What reading the acceptor's token comes to.
pub open spec fn ap_rep_result<
    C: Fn(&Vec<u8>) -> Result<Vec<u8>, Error>,
    O: Fn(&EncryptionKey, u32, &Vec<u8>) -> Result<Vec<u8>, Error>,
    P: Fn(&Vec<u8>) -> Result<RepPart, Error>,
>(
    token: Seq<u8>,
    first: EncryptionKey,
    second: EncryptionKey,
    cipher: C,
    open: O,
    part: P,
    r: Result<RepPart, Error>,
) -> bool {
    match framed_rep(token) {
        None => r matches Err(e) && e == Error::Truncated,
        Some(rep) => exists|c: Result<Vec<u8>, Error>|
            {
                &&& #[trigger] rep_read(cipher, rep, c)
                &&& match c {
                    Err(e) => r matches Err(x) && x == e,
                    Ok(v) => exists|p: Result<Vec<u8>, Error>| #[trigger]
                        either_opened(open, first, second, v, p) && part_result(part, p, r),
                }
            },
    }
}

/// What reading the initiator's third leg comes to.
pub open spec fn third_leg_result<
    C: Fn(&Vec<u8>) -> Result<Vec<u8>, Error>,
    O: Fn(&EncryptionKey, u32, &Vec<u8>) -> Result<Vec<u8>, Error>,
    P: Fn(&Vec<u8>) -> Result<RepPart, Error>,
>(
    token: Seq<u8>,
    key: EncryptionKey,
    cipher: C,
    open: O,
    part: P,
    r: Result<RepPart, Error>,
) -> bool {
    exists|c: Result<Vec<u8>, Error>|
        {
            &&& #[trigger] rep_read(cipher, token, c)
            &&& match c {
                Err(e) => r matches Err(x) && x == e,
                Ok(v) => exists|p: Result<Vec<u8>, Error>| #[trigger]
                    rep_opened(open, key, v, p) && part_result(part, p, r),
            }
        }
}

/// The context `x` is what the AP-REP read to `d` leaves of `c`, and `r` is
/// what is answered.
pub open spec fn rep_taken(
    c: GssContext,
    d: Result<RepPart, Error>,
    x: GssContext,
    r: Result<(), Error>,
) -> bool {
    match d {
        Err(e) => r == Err::<(), Error>(e) && x == c,
        Ok(part) => r is Ok && x == (match part.subkey {
            Some(k) => GssContext { acceptor_subkey: Some(k), ..c },
            None => c,
        }),
    }
}

/// The context `x` is what the third leg read to `d` leaves of `c`, and `r`
/// is what is answered.
pub open spec fn third_leg_taken(
    c: GssContext,
    d: Result<RepPart, Error>,
    x: GssContext,
    r: Result<(), Error>,
) -> bool {
    match d {
        Err(e) => r == Err::<(), Error>(e) && x == c,
        Ok(part) => {
            let seq: u64 = match part.seq_number {
                Some(n) => n as u64,
                None => 0,
            };
            if part.subkey is Some || seq != c.send_seq {
                r == Err::<(), Error>(Error::Integrity) && x == c
            } else {
                r is Ok && x == (GssContext { ap_rep_key: None, ..c })
            }
        },
    }
}

/// Takes the AP-REP out of a framed token.
fn rep_in_frame(token: &[u8]) -> (r: Result<Vec<u8>, Error>)
    ensures
        match framed_rep(token@) {
            Some(rep) => r matches Ok(v) && v@ == rep,
            None => r matches Err(e) && e == Error::Truncated,
        },
{
    let body = match gss_unwrap_app(token) {
        Err(e) => {
            return Err(e);
        },
        Ok(v) => v,
    };
    if body.len() < 2 || body[0] != TOK_AP_REP[0] || body[1] != TOK_AP_REP[1] {
        return Err(Error::Truncated);
    }
    let rep = copy_range(body.as_slice(), 2, body.len());
    assert(rep@ =~= body@.skip(2));
    Ok(rep)
}

/// Opens under one key, else under another.
fn open_either<O: Fn(&EncryptionKey, u32, &Vec<u8>) -> Result<Vec<u8>, Error>>(
    open: &O,
    first: &EncryptionKey,
    second: &EncryptionKey,
    c: &Vec<u8>,
) -> (p: Result<Vec<u8>, Error>)
    requires
        forall|k: EncryptionKey, u: u32, x: Vec<u8>| #[trigger] call_requires(*open, (&k, u, &x)),
    ensures
        either_opened(*open, *first, *second, *c, p),
{
    let p = open(first, KU_AP_REP_ENC_PART, c);
    match p {
        Ok(v) => Ok(v),
        Err(e) => {
            assert(rep_opened(*open, *first, *c, Err::<Vec<u8>, Error>(e)));
            open(second, KU_AP_REP_ENC_PART, c)
        },
    }
}

/// Reads what an encrypted part opened to.
fn read_part<P: Fn(&Vec<u8>) -> Result<RepPart, Error>>(
    part: &P,
    p: Result<Vec<u8>, Error>,
) -> (r: Result<RepPart, Error>)
    requires
        forall|x: Vec<u8>| #[trigger] call_requires(*part, (&x,)),
    ensures
        part_result(*part, p, r),
{
    match p {
        Err(e) => Err(e),
        Ok(plain) => part(&plain),
    }
}

/// Reads the acceptor's token.
fn read_ap_rep<
    C: Fn(&Vec<u8>) -> Result<Vec<u8>, Error>,
    O: Fn(&EncryptionKey, u32, &Vec<u8>) -> Result<Vec<u8>, Error>,
    P: Fn(&Vec<u8>) -> Result<RepPart, Error>,
>(
    token: &[u8],
    first: &EncryptionKey,
    second: &EncryptionKey,
    cipher: &C,
    open: &O,
    part: &P,
) -> (r: Result<RepPart, Error>)
    requires
        forall|x: Vec<u8>| #[trigger] call_requires(*cipher, (&x,)),
        forall|k: EncryptionKey, u: u32, x: Vec<u8>| #[trigger] call_requires(*open, (&k, u, &x)),
        forall|x: Vec<u8>| #[trigger] call_requires(*part, (&x,)),
    ensures
        ap_rep_result(token@, *first, *second, *cipher, *open, *part, r),
{
    let rep = match rep_in_frame(token) {
        Err(e) => {
            return Err(e);
        },
        Ok(v) => v,
    };
    let c = cipher(&rep);
    assert(rep_read(*cipher, rep@, c));
    match c {
        Err(e) => Err(e),
        Ok(v) => {
            let p = open_either(open, first, second, &v);
            let r = read_part(part, p);
            assert(either_opened(*open, *first, *second, v, p) && part_result(*part, p, r));
            r
        },
    }
}

/// Reads the initiator's third leg.
fn read_third_leg<
    C: Fn(&Vec<u8>) -> Result<Vec<u8>, Error>,
    O: Fn(&EncryptionKey, u32, &Vec<u8>) -> Result<Vec<u8>, Error>,
    P: Fn(&Vec<u8>) -> Result<RepPart, Error>,
>(token: &[u8], key: &EncryptionKey, cipher: &C, open: &O, part: &P) -> (r: Result<RepPart, Error>)
    requires
        forall|x: Vec<u8>| #[trigger] call_requires(*cipher, (&x,)),
        forall|k: EncryptionKey, u: u32, x: Vec<u8>| #[trigger] call_requires(*open, (&k, u, &x)),
        forall|x: Vec<u8>| #[trigger] call_requires(*part, (&x,)),
    ensures
        third_leg_result(token@, *key, *cipher, *open, *part, r),
{
    let rep = crate::bytes::copy(token);
    let c = cipher(&rep);
    assert(rep_read(*cipher, token@, c));
    match c {
        Err(e) => Err(e),
        Ok(v) => {
            let p = open(key, KU_AP_REP_ENC_PART, &v);
            assert(rep_opened(*open, *key, v, p));
            read_part(part, p)
        },
    }
}

impl GssContext {
    /// Takes the acceptor's AP-REP: its token comes out of its frame, `cipher`
    /// gives the encrypted part of what it holds, `open` opens that under the
    /// ticket's session key, else under the context's own, and `part` reads
    /// what came out. Where it brings a subkey, that is taken.
    pub fn process_ap_rep<
        C: Fn(&Vec<u8>) -> Result<Vec<u8>, Error>,
        O: Fn(&EncryptionKey, u32, &Vec<u8>) -> Result<Vec<u8>, Error>,
        P: Fn(&Vec<u8>) -> Result<RepPart, Error>,
    >(
        &mut self,
        token: &[u8],
        ticket_session: &EncryptionKey,
        cipher: C,
        open: O,
        part: P,
    ) -> (r: Result<(), Error>)
        requires
            forall|x: Vec<u8>| #[trigger] call_requires(cipher, (&x,)),
            forall|k: EncryptionKey, u: u32, x: Vec<u8>| #[trigger]
                call_requires(open, (&k, u, &x)),
            forall|x: Vec<u8>| #[trigger] call_requires(part, (&x,)),
        ensures
            exists|d: Result<RepPart, Error>| #[trigger]
                ap_rep_result(token@, *ticket_session, old(self).session, cipher, open, part, d)
                    && rep_taken(*old(self), d, *final(self), r),
    {
        let d = read_ap_rep(token, ticket_session, &self.session, &cipher, &open, &part);
        assert(ap_rep_result(token@, *ticket_session, old(self).session, cipher, open, part, d));
        match d {
            Err(e) => Err(e),
            Ok(p) => {
                if p.subkey.is_some() {
                    self.acceptor_subkey = p.subkey;
                }
                Ok(())
            },
        }
    }

    /// Ends the third leg: `cipher` gives the encrypted part of the token,
    /// `open` opens it under the key of the third leg, and `part` reads what
    /// came out. The sequence number must be the one to be sent next, and no
    /// subkey may come with it.
    pub fn accept_dce<
        C: Fn(&Vec<u8>) -> Result<Vec<u8>, Error>,
        O: Fn(&EncryptionKey, u32, &Vec<u8>) -> Result<Vec<u8>, Error>,
        P: Fn(&Vec<u8>) -> Result<RepPart, Error>,
    >(&mut self, token: &[u8], cipher: C, open: O, part: P) -> (r: Result<(), Error>)
        requires
            forall|x: Vec<u8>| #[trigger] call_requires(cipher, (&x,)),
            forall|k: EncryptionKey, u: u32, x: Vec<u8>| #[trigger]
                call_requires(open, (&k, u, &x)),
            forall|x: Vec<u8>| #[trigger] call_requires(part, (&x,)),
        ensures
            match old(self).ap_rep_key {
                Some(key) if old(self).dce_style => exists|d: Result<RepPart, Error>| #[trigger]
                    third_leg_result(token@, key, cipher, open, part, d) && third_leg_taken(
                        *old(self),
                        d,
                        *final(self),
                        r,
                    ),
                _ => r == Err::<(), Error>(Error::Truncated) && *final(self) == *old(self),
            },
    {
        if !self.dce_style {
            return Err(Error::Truncated);
        }
        let d = match &self.ap_rep_key {
            None => {
                return Err(Error::Truncated);
            },
            Some(key) => {
                let d = read_third_leg(token, key, &cipher, &open, &part);
                assert(third_leg_result(token@, old(self).ap_rep_key->0, cipher, open, part, d));
                d
            },
        };
        match d {
            Err(e) => Err(e),
            Ok(p) => {
                if p.subkey.is_some() {
                    return Err(Error::Integrity);
                }
                let seq: u64 = match p.seq_number {
                    Some(n) => n as u64,
                    None => 0,
                };
                if seq != self.send_seq {
                    return Err(Error::Integrity);
                }
                self.ap_rep_key = None;
                Ok(())
            },
        }
    }
}

/// An AP-REP that opens under the ticket's session key is read under that key
/// alone: the context's own key decides nothing.
pub proof fn law_ticket_session_comes_first<
    O: Fn(&EncryptionKey, u32, &Vec<u8>) -> Result<Vec<u8>, Error>,
>(
    open: O,
    first: EncryptionKey,
    second: EncryptionKey,
    c: Vec<u8>,
    plain: Vec<u8>,
    p: Result<Vec<u8>, Error>,
)
    requires
        forall|x: Result<Vec<u8>, Error>| #[trigger]
            rep_opened(open, first, c, x) ==> x == Ok::<Vec<u8>, Error>(plain),
        either_opened(open, first, second, c, p),
    ensures
        p == Ok::<Vec<u8>, Error>(plain),
{
}

/// An AP-REP opens where one of the two keys opens it, and is refused as under
/// the second key where neither does.
pub proof fn law_either_key_opens<O: Fn(&EncryptionKey, u32, &Vec<u8>) -> Result<Vec<u8>, Error>>(
    open: O,
    first: EncryptionKey,
    second: EncryptionKey,
    c: Vec<u8>,
    plain: Vec<u8>,
    p: Result<Vec<u8>, Error>,
)
    requires
        forall|x: Result<Vec<u8>, Error>| #[trigger] rep_opened(open, first, c, x) ==> x is Err,
        forall|x: Result<Vec<u8>, Error>| #[trigger]
            rep_opened(open, second, c, x) ==> x == Ok::<Vec<u8>, Error>(plain),
        either_opened(open, first, second, c, p),
    ensures
        p == Ok::<Vec<u8>, Error>(plain),
{
}

/// An AP-REP is framed as one: a token that is not framed, or marked otherwise,
/// is refused.
pub proof fn law_rep_is_framed(der: Seq<u8>, id: Seq<u8>)
    requires
        der.len() <= 0xffff - 13,
        id.len() == 2,
    ensures
        framed_rep(wrapped_app(id, der)) == (if id == seq![2u8, 0] {
            Some(der)
        } else {
            None
        }),
{
    law_frame_round_trip(id, der);
    let s = id + der;
    assert(s.skip(2) =~= der);
    assert(s[0] == id[0] && s[1] == id[1]);
    if id[0] == 2 && id[1] == 0 {
        assert(id =~= seq![2u8, 0]);
    }
}

/// An AP-REP that was read leaves the context with its subkey, where it has one,
/// and changes nothing else; one that was refused changes nothing.
pub proof fn law_rep_brings_the_subkey(
    c: GssContext,
    d: Result<RepPart, Error>,
    x: GssContext,
    r: Result<(), Error>,
)
    requires
        rep_taken(c, d, x, r),
    ensures
        r is Ok <==> d is Ok,
        d matches Ok(p) ==> x == (GssContext {
            acceptor_subkey: if p.subkey is Some {
                p.subkey
            } else {
                c.acceptor_subkey
            },
            ..c
        }),
        d matches Err(e) ==> r == Err::<(), Error>(e) && x == c,
{
}

/// A third leg is taken where it has no subkey and the sequence number that the
/// context sends next; the key of the third leg is gone then, and otherwise
/// nothing changes.
pub proof fn law_third_leg_answers_the_number(
    c: GssContext,
    p: RepPart,
    x: GssContext,
    r: Result<(), Error>,
)
    requires
        third_leg_taken(c, Ok(p), x, r),
    ensures
        r is Ok <==> (p.subkey is None && c.send_seq == (if p.seq_number is Some {
            p.seq_number->0
        } else {
            0
        })),
        r is Ok ==> x.ap_rep_key is None && x == (GssContext { ap_rep_key: None, ..c }),
        r is Err ==> r == Err::<(), Error>(Error::Integrity) && x == c,
{
}

/// A token that holds no AP-REP is refused, and so is one whose encrypted part
/// cannot be read.
pub proof fn law_other_rep_is_refused<
    C: Fn(&Vec<u8>) -> Result<Vec<u8>, Error>,
    O: Fn(&EncryptionKey, u32, &Vec<u8>) -> Result<Vec<u8>, Error>,
    P: Fn(&Vec<u8>) -> Result<RepPart, Error>,
>(
    token: Seq<u8>,
    first: EncryptionKey,
    second: EncryptionKey,
    cipher: C,
    open: O,
    part: P,
    r: Result<RepPart, Error>,
)
    requires
        ap_rep_result(token, first, second, cipher, open, part, r),
    ensures
        framed_rep(token) is None ==> r == Err::<RepPart, Error>(Error::Truncated),
        (forall|x: Vec<u8>, c: Result<Vec<u8>, Error>| #[trigger]
            call_ensures(cipher, (&x,), c) ==> c is Err) ==> r is Err,
        (forall|k: EncryptionKey, x: Vec<u8>, p: Result<Vec<u8>, Error>| #[trigger]
            call_ensures(open, (&k, 12u32, &x), p) ==> p is Err) ==> r is Err,
{
}

/// A third leg that does not open under the key for it is refused.
pub proof fn law_unopened_third_leg_is_refused<
    C: Fn(&Vec<u8>) -> Result<Vec<u8>, Error>,
    O: Fn(&EncryptionKey, u32, &Vec<u8>) -> Result<Vec<u8>, Error>,
    P: Fn(&Vec<u8>) -> Result<RepPart, Error>,
>(
    token: Seq<u8>,
    key: EncryptionKey,
    cipher: C,
    open: O,
    part: P,
    r: Result<RepPart, Error>,
)
    requires
        third_leg_result(token, key, cipher, open, part, r),
        forall|x: Vec<u8>, p: Result<Vec<u8>, Error>| #[trigger]
            call_ensures(open, (&key, 12u32, &x), p) ==> p is Err,
    ensures
        r is Err,
{
}

} // verus!
