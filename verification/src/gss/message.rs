//! Wrapping and unwrapping a message from beginning to end: what is made and
//! opened under a key comes in as functions.

use crate::gss::context::{law_no_number_twice, seq_run, seq_step, GssContext};
use crate::gss::error::{inner_error, Error};
use crate::gss::mic::{cksum_result, CksumVerdict};
use crate::gss::wrap::{
    ends_in_header, law_seal_round_trip, law_sign_round_trip, open_wrap_token, seal_usage, sealed,
    sealed_plain, sealed_token, sign_input, signed_input, signed_split, signed_token, token_flags,
    with_subkey, wrap_token_result, WrapToken, KU_ACCEPTOR_SEAL, KU_INITIATOR_SEAL,
};
use crate::msg::EncryptionKey;
use vstd::prelude::*;
use vstd::slice::slice_subrange;
use vstd::string::*;

verus! {

/// The key usage of wrapped messages from this side.
pub open spec fn wrap_usage(initiator: bool) -> u32 {
    if initiator {
        KU_INITIATOR_SEAL
    } else {
        KU_ACCEPTOR_SEAL
    }
}

/// The key usage of wrapped messages from the other side.
pub open spec fn peer_wrap_usage(initiator: bool) -> u32 {
    wrap_usage(!initiator)
}

/// `open` gave `p` for the payload of a sealed token.
pub open spec fn opened_payload<D: Fn(&EncryptionKey, u32, &Vec<u8>) -> Result<Vec<u8>, Error>>(
    open: D,
    key: EncryptionKey,
    usage: u32,
    w: WrapToken,
    p: Result<Vec<u8>, Error>,
) -> bool {
    call_ensures(open, (&key, usage, &w.payload), p)
}

/// `check` gave `verdict` of the checksum of a token that is not sealed.
pub open spec fn judged_payload<C: Fn(&EncryptionKey, u32, &Vec<u8>, &Vec<u8>) -> CksumVerdict>(
    check: C,
    key: EncryptionKey,
    usage: u32,
    w: WrapToken,
    split: int,
    verdict: CksumVerdict,
) -> bool {
    exists|x: Vec<u8>, m: Vec<u8>|
        x@ == signed_input(w.payload@.take(split), w.flags, w.seq) && m@ == w.payload@.skip(split)
            && #[trigger] call_ensures(check, (&key, usage, &x, &m), verdict)
}

/// What a message comes to that was opened or verified: its sequence number is
/// received.
pub open spec fn received(
    c: GssContext,
    d: GssContext,
    seq: u64,
    msg: Seq<u8>,
    conf: bool,
    r: Result<(Vec<u8>, bool), Error>,
) -> bool {
    match seq_step(c.seq_state(), seq) {
        None => r matches Err(x) && x == Error::Sequence && d == c,
        Some(st) => r matches Ok(t) && t.0@ == msg && t.1 == conf && c.same_but_window(d)
            && d.seq_state() == st,
    }
}

/// What a sealed token comes to that was decrypted.
pub open spec fn sealed_received(
    c: GssContext,
    d: GssContext,
    w: WrapToken,
    p: Result<Vec<u8>, Error>,
    r: Result<(Vec<u8>, bool), Error>,
) -> bool {
    match p {
        Err(e) => r matches Err(x) && x == e && d == c,
        Ok(plain) => if !ends_in_header(plain@, w.flags, w.ec, w.seq) {
            r matches Err(x) && x == Error::Truncated && d == c
        } else {
            received(c, d, w.seq, plain@.take(plain@.len() - w.ec - 16), true, r)
        },
    }
}

/// What a token comes to that is not sealed; `size` is the length of the key's
/// checksums, where it has any.
pub open spec fn signed_received<
    C: Fn(&EncryptionKey, u32, &Vec<u8>, &Vec<u8>) -> CksumVerdict,
>(
    c: GssContext,
    d: GssContext,
    w: WrapToken,
    key: EncryptionKey,
    size: Option<usize>,
    check: C,
    r: Result<(Vec<u8>, bool), Error>,
) -> bool {
    if size is None || size->0 > w.payload@.len() || w.ec != size->0 {
        r matches Err(x) && x == Error::Truncated && d == c
    } else {
        let split = w.payload@.len() - size->0;
        exists|verdict: CksumVerdict|
            {
                &&& #[trigger] judged_payload(
                    check,
                    key,
                    peer_wrap_usage(c.initiator),
                    w,
                    split,
                    verdict,
                )
                &&& match cksum_result(verdict) {
                    Err(e) => r matches Err(x) && x == e && d == c,
                    Ok(()) => received(c, d, w.seq, w.payload@.take(split), false, r),
                }
            }
    }
}

/// What unwrapping a token comes to; `c` becomes `d`.
pub open spec fn unwrap_result<
    F: Fn(&EncryptionKey) -> Option<usize>,
    D: Fn(&EncryptionKey, u32, &Vec<u8>) -> Result<Vec<u8>, Error>,
    C: Fn(&EncryptionKey, u32, &Vec<u8>, &Vec<u8>) -> CksumVerdict,
>(
    c: GssContext,
    d: GssContext,
    token: Seq<u8>,
    size_of: F,
    open: D,
    check: C,
    r: Result<(Vec<u8>, bool), Error>,
) -> bool {
    exists|t: Result<WrapToken, Error>|
        {
            &&& #[trigger] wrap_token_result(token, c.initiator, t)
            &&& match t {
                Err(e) => r matches Err(x) && x == e && d == c,
                Ok(w) => match c.key_for(w.flags) {
                    None => (r matches Err(x) && inner_error(x, "gss acceptor subkey"@)) && d == c,
                    Some(k) => if sealed(w.flags) {
                        exists|p: Result<Vec<u8>, Error>| #[trigger]
                            opened_payload(open, k, peer_wrap_usage(c.initiator), w, p)
                                && sealed_received(c, d, w, p, r)
                    } else {
                        exists|size: Option<usize>| #[trigger]
                            call_ensures(size_of, (&k,), size) && signed_received(
                                c,
                                d,
                                w,
                                k,
                                size,
                                check,
                                r,
                            )
                    },
                },
            }
        }
}

/// `seal` gave `x` for a message that the context seals next.
pub open spec fn sealed_next<E: Fn(&EncryptionKey, u32, &Vec<u8>) -> Result<Vec<u8>, Error>>(
    c: GssContext,
    plaintext: Seq<u8>,
    ec: u16,
    seal: E,
    x: Result<Vec<u8>, Error>,
) -> bool {
    exists|p: Vec<u8>|
        p@ == sealed_plain(plaintext, c.seal_flags(), ec, c.send_seq) && #[trigger] call_ensures(
            seal,
            (&c.sending_key(), wrap_usage(c.initiator), &p),
            x,
        )
}

/// What sealing the next message comes to; `c` becomes `d`.
pub open spec fn sealing_result<E: Fn(&EncryptionKey, u32, &Vec<u8>) -> Result<Vec<u8>, Error>>(
    c: GssContext,
    d: GssContext,
    plaintext: Seq<u8>,
    ec: u16,
    rrc: u16,
    seal: E,
    r: Result<Vec<u8>, Error>,
) -> bool {
    exists|x: Result<Vec<u8>, Error>| #[trigger]
        sealed_next(c, plaintext, ec, seal, x) && (match x {
            Err(e) => r == Err::<Vec<u8>, Error>(e) && d == c,
            Ok(cipher) => (r matches Ok(v) && v@ == sealed_token(
                cipher@,
                c.seal_flags(),
                ec,
                rrc,
                c.send_seq,
            )) && d == c.after_sending(),
        })
}

/// `mac` gave `x` for a message that the context signs next.
pub open spec fn signed_next<M: Fn(&EncryptionKey, u32, &Vec<u8>) -> Result<Vec<u8>, Error>>(
    c: GssContext,
    plaintext: Seq<u8>,
    mac: M,
    x: Result<Vec<u8>, Error>,
) -> bool {
    exists|p: Vec<u8>|
        p@ == signed_input(plaintext, token_flags(c.initiator, false, false), c.send_seq)
            && #[trigger] call_ensures(mac, (&c.session, wrap_usage(c.initiator), &p), x)
}

/// What signing the next message comes to; `c` becomes `d`.
pub open spec fn signing_result<M: Fn(&EncryptionKey, u32, &Vec<u8>) -> Result<Vec<u8>, Error>>(
    c: GssContext,
    d: GssContext,
    plaintext: Seq<u8>,
    mac: M,
    r: Result<Vec<u8>, Error>,
) -> bool {
    exists|x: Result<Vec<u8>, Error>| #[trigger]
        signed_next(c, plaintext, mac, x) && (match x {
            Err(e) => r == Err::<Vec<u8>, Error>(e) && d == c,
            Ok(m) => if m@.len() > 0xffff {
                r == Err::<Vec<u8>, Error>(Error::Truncated) && d == c
            } else {
                (r matches Ok(v) && v@ == signed_token(
                    plaintext,
                    m@,
                    token_flags(c.initiator, false, false),
                    c.send_seq,
                )) && d == c.after_sending()
            },
        })
}

impl GssContext {
    /// The key that sealed tokens are sent under.
    pub open spec fn sending_key(&self) -> EncryptionKey {
        match self.acceptor_subkey {
            Some(k) => k,
            None => self.session,
        }
    }

    /// The context after a message went out.
    pub open spec fn after_sending(&self) -> GssContext {
        GssContext { send_seq: self.send_seq.wrapping_add(1), ..*self }
    }

    /// Wraps a message sealed, with padding and rotation as given. `seal`
    /// encrypts.
    pub fn wrap_conf_inner<E: Fn(&EncryptionKey, u32, &Vec<u8>) -> Result<Vec<u8>, Error>>(
        &mut self,
        plaintext: &[u8],
        ec: u16,
        rrc: u16,
        seal: &E,
    ) -> (r: Result<Vec<u8>, Error>)
        requires
            forall|k: EncryptionKey, u: u32, p: Vec<u8>| #[trigger]
                call_requires(*seal, (&k, u, &p)),
        ensures
            sealing_result(*old(self), *final(self), plaintext@, ec, rrc, *seal, r),
    {
        let p = self.wrap_input(plaintext, ec);
        let (key, _) = self.send_key();
        let x = seal(key, seal_usage(self.initiator), &p);
        proof {
            assert(*key == old(self).sending_key());
            assert(sealed_next(*old(self), plaintext@, ec, *seal, x));
        }
        match x {
            Err(e) => Err(e),
            Ok(cipher) => Ok(self.sealed_out(cipher.as_slice(), ec, rrc)),
        }
    }

    /// Wraps a message sealed, without padding or rotation.
    pub fn wrap<E: Fn(&EncryptionKey, u32, &Vec<u8>) -> Result<Vec<u8>, Error>>(
        &mut self,
        plaintext: &[u8],
        seal: &E,
    ) -> (r: Result<Vec<u8>, Error>)
        requires
            forall|k: EncryptionKey, u: u32, p: Vec<u8>| #[trigger]
                call_requires(*seal, (&k, u, &p)),
        ensures
            sealing_result(*old(self), *final(self), plaintext@, 0, 0, *seal, r),
    {
        self.wrap_conf_inner(plaintext, 0, 0, seal)
    }

    /// Wraps a message sealed, rotated as given.
    pub fn wrap_with_rrc<E: Fn(&EncryptionKey, u32, &Vec<u8>) -> Result<Vec<u8>, Error>>(
        &mut self,
        plaintext: &[u8],
        rrc: u16,
        seal: &E,
    ) -> (r: Result<Vec<u8>, Error>)
        requires
            forall|k: EncryptionKey, u: u32, p: Vec<u8>| #[trigger]
                call_requires(*seal, (&k, u, &p)),
        ensures
            sealing_result(*old(self), *final(self), plaintext@, 0, rrc, *seal, r),
    {
        self.wrap_conf_inner(plaintext, 0, rrc, seal)
    }

    /// Wraps a message signed. `mac` makes the checksum.
    pub fn wrap_integ<M: Fn(&EncryptionKey, u32, &Vec<u8>) -> Result<Vec<u8>, Error>>(
        &mut self,
        plaintext: &[u8],
        mac: &M,
    ) -> (r: Result<Vec<u8>, Error>)
        requires
            forall|k: EncryptionKey, u: u32, p: Vec<u8>| #[trigger]
                call_requires(*mac, (&k, u, &p)),
        ensures
            signing_result(*old(self), *final(self), plaintext@, *mac, r),
    {
        let p = self.wrap_integ_input(plaintext);
        let x = mac(&self.session, seal_usage(self.initiator), &p);
        proof {
            assert(signed_next(*old(self), plaintext@, *mac, x));
        }
        match x {
            Err(e) => Err(e),
            Ok(m) => self.signed_out(plaintext, m.as_slice()),
        }
    }

    /// Unwraps a token and says whether it was sealed. `size_of` gives the
    /// length of a key's checksums, `open` decrypts, and `check` judges a
    /// checksum.
    pub fn unwrap_conf<
        F: Fn(&EncryptionKey) -> Option<usize>,
        D: Fn(&EncryptionKey, u32, &Vec<u8>) -> Result<Vec<u8>, Error>,
        C: Fn(&EncryptionKey, u32, &Vec<u8>, &Vec<u8>) -> CksumVerdict,
    >(
        &mut self,
        token: &[u8],
        size_of: &F,
        open: &D,
        check: &C,
    ) -> (r: Result<(Vec<u8>, bool), Error>)
        requires
            old(self).wf(),
            forall|k: EncryptionKey| #[trigger] call_requires(*size_of, (&k,)),
            forall|k: EncryptionKey, u: u32, p: Vec<u8>| #[trigger]
                call_requires(*open, (&k, u, &p)),
            forall|k: EncryptionKey, u: u32, x: Vec<u8>, m: Vec<u8>| #[trigger]
                call_requires(*check, (&k, u, &x, &m)),
        ensures
            final(self).wf(),
            unwrap_result(*old(self), *final(self), token@, *size_of, *open, *check, r),
    {
        let t = open_wrap_token(token, self.initiator);
        proof {
            assert(wrap_token_result(token@, self.initiator, t));
        }
        let w = match t {
            Err(e) => {
                return Err(e);
            },
            Ok(w) => w,
        };
        let usage: u32 = seal_usage(!self.initiator);
        let ghost c = *self;
        if w.flags / 2 % 2 == 1 {
            let p = match self.recv_key(w.flags) {
                Err(e) => {
                    return Err(e);
                },
                Ok(key) => open(key, usage, &w.payload),
            };
            proof {
                assert(opened_payload(
                    *open,
                    c.key_for(w.flags)->0,
                    peer_wrap_usage(c.initiator),
                    w,
                    p,
                ));
            }
            match self.unwrap_sealed(&w, p) {
                Err(e) => Err(e),
                Ok(m) => Ok((m, true)),
            }
        } else {
            let (size, verdict): (Option<usize>, CksumVerdict) = match self.recv_key(w.flags) {
                Err(e) => {
                    return Err(e);
                },
                Ok(key) => {
                    let size: Option<usize> = size_of(key);
                    let n: usize = match size {
                        None => {
                            return Err(Error::Truncated);
                        },
                        Some(n) => n,
                    };
                    let split: usize = match signed_split(&w, n) {
                        Err(e) => {
                            return Err(e);
                        },
                        Ok(i) => i,
                    };
                    let data = slice_subrange(w.payload.as_slice(), 0, split);
                    let x = sign_input(data, w.flags, w.seq);
                    let m = crate::bytes::copy_range(w.payload.as_slice(), split, w.payload.len());
                    proof {
                        assert(data@ =~= w.payload@.take(split as int));
                        assert(m@ =~= w.payload@.skip(split as int));
                    }
                    let v: CksumVerdict = check(key, usage, &x, &m);
                    proof {
                        assert(judged_payload(
                            *check,
                            c.key_for(w.flags)->0,
                            peer_wrap_usage(c.initiator),
                            w,
                            w.payload@.len() - size->0,
                            v,
                        ));
                    }
                    (size, v)
                },
            };
            match self.unwrap_signed(&w, size, verdict) {
                Err(e) => Err(e),
                Ok(m) => Ok((m, false)),
            }
        }
    }

    /// Unwraps a token.
    pub fn unwrap<
        F: Fn(&EncryptionKey) -> Option<usize>,
        D: Fn(&EncryptionKey, u32, &Vec<u8>) -> Result<Vec<u8>, Error>,
        C: Fn(&EncryptionKey, u32, &Vec<u8>, &Vec<u8>) -> CksumVerdict,
    >(
        &mut self,
        token: &[u8],
        size_of: &F,
        open: &D,
        check: &C,
    ) -> (r: Result<Vec<u8>, Error>)
        requires
            old(self).wf(),
            forall|k: EncryptionKey| #[trigger] call_requires(*size_of, (&k,)),
            forall|k: EncryptionKey, u: u32, p: Vec<u8>| #[trigger]
                call_requires(*open, (&k, u, &p)),
            forall|k: EncryptionKey, u: u32, x: Vec<u8>, m: Vec<u8>| #[trigger]
                call_requires(*check, (&k, u, &x, &m)),
        ensures
            final(self).wf(),
            exists|q: Result<(Vec<u8>, bool), Error>| #[trigger]
                unwrap_result(
                    *old(self),
                    *final(self),
                    token@,
                    *size_of,
                    *open,
                    *check,
                    q,
                ) && (match q {
                    Err(e) => r matches Err(x) && x == e,
                    Ok(t) => r matches Ok(v) && v == t.0,
                }),
    {
        match self.unwrap_conf(token, size_of, open, check) {
            Err(e) => Err(e),
            Ok((m, _)) => Ok(m),
        }
    }
}

/// `open` gives back what `seal` sealed under the same key and usage.
pub open spec fn undoes<
    E: Fn(&EncryptionKey, u32, &Vec<u8>) -> Result<Vec<u8>, Error>,
    D: Fn(&EncryptionKey, u32, &Vec<u8>) -> Result<Vec<u8>, Error>,
>(open: D, seal: E) -> bool {
    forall|k: EncryptionKey, u: u32, p: Vec<u8>, x: Vec<u8>, y: Vec<u8>, q: Result<Vec<u8>, Error>|

        #[trigger] call_ensures(seal, (&k, u, &p), Ok(x)) && #[trigger] call_ensures(
            open,
            (&k, u, &y),
            q,
        ) && y@ == x@ ==> (q matches Ok(v) && v@ == p@)
}

/// `check` is content with what `mac` made under the same key and usage, and
/// `size_of` gives its length.
pub open spec fn verifies<
    M: Fn(&EncryptionKey, u32, &Vec<u8>) -> Result<Vec<u8>, Error>,
    F: Fn(&EncryptionKey) -> Option<usize>,
    C: Fn(&EncryptionKey, u32, &Vec<u8>, &Vec<u8>) -> CksumVerdict,
>(size_of: F, check: C, mac: M) -> bool {
    &&& forall|k: EncryptionKey, u: u32, p: Vec<u8>, m: Vec<u8>, size: Option<usize>| #[trigger]
        call_ensures(mac, (&k, u, &p), Ok(m)) && #[trigger] call_ensures(size_of, (&k,), size)
            ==> size is Some && size->0 == m@.len()
    &&& forall|
        k: EncryptionKey,
        u: u32,
        p: Vec<u8>,
        m: Vec<u8>,
        x: Vec<u8>,
        n: Vec<u8>,
        verdict: CksumVerdict,
    | #[trigger]
        call_ensures(mac, (&k, u, &p), Ok(m)) && #[trigger] call_ensures(
            check,
            (&k, u, &x, &n),
            verdict,
        ) && x@ == p@ && n@ == m@ ==> cksum_result(verdict) is Ok
}

/// Two contexts with the same keys, one on each side.
pub open spec fn peers(a: GssContext, b: GssContext) -> bool {
    a.initiator != b.initiator && a.session == b.session && a.acceptor_subkey == b.acceptor_subkey
}

/// What one side wraps sealed the other side unwraps to the same message, with
/// any padding and rotation, where the two hold the same keys, encryption is
/// undone by decryption and the sequence number is not refused.
pub proof fn law_wrap_round_trip<
    E: Fn(&EncryptionKey, u32, &Vec<u8>) -> Result<Vec<u8>, Error>,
    F: Fn(&EncryptionKey) -> Option<usize>,
    D: Fn(&EncryptionKey, u32, &Vec<u8>) -> Result<Vec<u8>, Error>,
    C: Fn(&EncryptionKey, u32, &Vec<u8>, &Vec<u8>) -> CksumVerdict,
>(
    a: GssContext,
    a2: GssContext,
    b: GssContext,
    b2: GssContext,
    msg: Seq<u8>,
    ec: u16,
    rrc: u16,
    token: Vec<u8>,
    seal: E,
    size_of: F,
    open: D,
    check: C,
    r: Result<(Vec<u8>, bool), Error>,
)
    requires
        peers(a, b),
        undoes(open, seal),
        seq_step(b.seq_state(), a.send_seq) is Some,
        sealing_result(a, a2, msg, ec, rrc, seal, Ok(token)),
        unwrap_result(b, b2, token@, size_of, open, check, r),
    ensures
        r matches Ok(t) && t.0@ == msg && t.1,
{
    let x = choose|x: Result<Vec<u8>, Error>| #[trigger]
        sealed_next(a, msg, ec, seal, x) && (match x {
            Err(e) => false,
            Ok(cipher) => token@ == sealed_token(cipher@, a.seal_flags(), ec, rrc, a.send_seq),
        });
    let cipher = x->Ok_0;
    assert forall|t: Result<WrapToken, Error>| #[trigger]
        wrap_token_result(token@, b.initiator, t) implies (t matches Ok(w) && sealed(w.flags)
        && with_subkey(w.flags) == (a.acceptor_subkey is Some) && w.payload@ == cipher@
        && w.seq == a.send_seq && ends_in_header(
        sealed_plain(msg, a.seal_flags(), ec, a.send_seq),
        w.flags,
        w.ec,
        w.seq,
    ) && sealed_plain(msg, a.seal_flags(), ec, a.send_seq).take(
        sealed_plain(msg, a.seal_flags(), ec, a.send_seq).len() - w.ec - 16,
    ) == msg) by {
        law_seal_round_trip(
            msg,
            cipher@,
            a.initiator,
            a.acceptor_subkey is Some,
            ec,
            rrc,
            a.send_seq,
            t,
        );
    }
}

/// What one side wraps signed the other side unwraps to the same message,
/// where the two hold the same keys, a checksum that was made is verified and
/// the sequence number is not refused.
pub proof fn law_wrap_integ_round_trip<
    M: Fn(&EncryptionKey, u32, &Vec<u8>) -> Result<Vec<u8>, Error>,
    F: Fn(&EncryptionKey) -> Option<usize>,
    D: Fn(&EncryptionKey, u32, &Vec<u8>) -> Result<Vec<u8>, Error>,
    C: Fn(&EncryptionKey, u32, &Vec<u8>, &Vec<u8>) -> CksumVerdict,
>(
    a: GssContext,
    a2: GssContext,
    b: GssContext,
    b2: GssContext,
    msg: Seq<u8>,
    token: Vec<u8>,
    mac: M,
    size_of: F,
    open: D,
    check: C,
    r: Result<(Vec<u8>, bool), Error>,
)
    requires
        peers(a, b),
        verifies(size_of, check, mac),
        seq_step(b.seq_state(), a.send_seq) is Some,
        signing_result(a, a2, msg, mac, Ok(token)),
        unwrap_result(b, b2, token@, size_of, open, check, r),
    ensures
        r matches Ok(t) && t.0@ == msg && !t.1,
{
    let flags = token_flags(a.initiator, false, false);
    let x = choose|x: Result<Vec<u8>, Error>| #[trigger]
        signed_next(a, msg, mac, x) && (match x {
            Err(e) => false,
            Ok(m) => m@.len() <= 0xffff && token@ == signed_token(msg, m@, flags, a.send_seq),
        });
    let m = x->Ok_0;
    assert forall|t: Result<WrapToken, Error>| #[trigger]
        wrap_token_result(token@, b.initiator, t) implies (t matches Ok(w) && !sealed(w.flags)
        && w.flags == flags && w.seq == a.send_seq && w.ec == m@.len()
        && w.payload@.len() == msg.len() + m@.len() && w.payload@.take(msg.len() as int) == msg
        && w.payload@.skip(msg.len() as int) == m@) by {
        law_sign_round_trip(msg, m@, a.initiator, false, a.send_seq, t);
    }
}

/// The functions that open and verify answer alike when asked the same twice.
pub open spec fn answers_alike<
    F: Fn(&EncryptionKey) -> Option<usize>,
    D: Fn(&EncryptionKey, u32, &Vec<u8>) -> Result<Vec<u8>, Error>,
    C: Fn(&EncryptionKey, u32, &Vec<u8>, &Vec<u8>) -> CksumVerdict,
>(size_of: F, open: D, check: C) -> bool {
    &&& forall|k: EncryptionKey, a: Option<usize>, b: Option<usize>| #[trigger]
        call_ensures(size_of, (&k,), a) && #[trigger] call_ensures(size_of, (&k,), b) ==> a == b
    &&& forall|
        k: EncryptionKey,
        u: u32,
        x: Vec<u8>,
        y: Vec<u8>,
        p: Vec<u8>,
        q: Result<Vec<u8>, Error>,
    | #[trigger]
        call_ensures(open, (&k, u, &x), Ok::<Vec<u8>, Error>(p)) && #[trigger] call_ensures(
            open,
            (&k, u, &y),
            q,
        ) && x@ == y@ ==> (q matches Ok(v) && v@ == p@)
    &&& forall|
        k: EncryptionKey,
        u: u32,
        x: Vec<u8>,
        m: Vec<u8>,
        y: Vec<u8>,
        n: Vec<u8>,
        v: CksumVerdict,
        w: CksumVerdict,
    | #[trigger]
        call_ensures(check, (&k, u, &x, &m), v) && #[trigger] call_ensures(
            check,
            (&k, u, &y, &n),
            w,
        ) && x@ == y@ && m@ == n@ ==> v == w
}

/// A token that was unwrapped is never unwrapped again, whatever numbers are
/// received in between: it is refused, the context stays as it is, and where
/// opening and verifying answer alike, it is refused for its sequence number.
pub proof fn law_no_token_twice<
    F: Fn(&EncryptionKey) -> Option<usize>,
    D: Fn(&EncryptionKey, u32, &Vec<u8>) -> Result<Vec<u8>, Error>,
    C: Fn(&EncryptionKey, u32, &Vec<u8>, &Vec<u8>) -> CksumVerdict,
>(
    a: GssContext,
    b: GssContext,
    between: Seq<u64>,
    c: GssContext,
    d: GssContext,
    token: Seq<u8>,
    size_of: F,
    open: D,
    check: C,
    first: Result<(Vec<u8>, bool), Error>,
    second: Result<(Vec<u8>, bool), Error>,
)
    requires
        unwrap_result(a, b, token, size_of, open, check, first),
        first is Ok,
        b.same_but_window(c),
        c.seq_state() == seq_run(b.seq_state(), between),
        unwrap_result(c, d, token, size_of, open, check, second),
    ensures
        second is Err,
        d == c,
        answers_alike(size_of, open, check) ==> second == Err::<(Vec<u8>, bool), Error>(
            Error::Sequence,
        ),
{
    let t = choose|t: Result<WrapToken, Error>|
        #![trigger wrap_token_result(token, a.initiator, t)]
        wrap_token_result(token, a.initiator, t) && (match t {
            Err(e) => false,
            Ok(w) => match a.key_for(w.flags) {
                None => false,
                Some(k) => if sealed(w.flags) {
                    exists|p: Result<Vec<u8>, Error>| #[trigger]
                        opened_payload(open, k, peer_wrap_usage(a.initiator), w, p)
                            && sealed_received(a, b, w, p, first)
                } else {
                    exists|size: Option<usize>| #[trigger]
                        call_ensures(size_of, (&k,), size) && signed_received(
                            a,
                            b,
                            w,
                            k,
                            size,
                            check,
                            first,
                        )
                },
            },
        });
    let w = t->Ok_0;
    law_no_number_twice(a.seq_state(), w.seq, between);
    assert(seq_step(c.seq_state(), w.seq) is None);
}

/// A token that is refused leaves the context as it was.
pub proof fn law_refused_token_changes_nothing<
    F: Fn(&EncryptionKey) -> Option<usize>,
    D: Fn(&EncryptionKey, u32, &Vec<u8>) -> Result<Vec<u8>, Error>,
    C: Fn(&EncryptionKey, u32, &Vec<u8>, &Vec<u8>) -> CksumVerdict,
>(
    c: GssContext,
    d: GssContext,
    token: Seq<u8>,
    size_of: F,
    open: D,
    check: C,
    r: Result<(Vec<u8>, bool), Error>,
)
    requires
        unwrap_result(c, d, token, size_of, open, check, r),
        r is Err,
    ensures
        d == c,
{
}

/// The two sides wrap under different key usages, and each reads under that of
/// the other.
pub proof fn law_usages_differ(initiator: bool)
    ensures
        wrap_usage(initiator) != wrap_usage(!initiator),
        peer_wrap_usage(initiator) == wrap_usage(!initiator),
        peer_wrap_usage(!initiator) == wrap_usage(initiator),
        wrap_usage(true) == 24,
        wrap_usage(false) == 22,
{
}

/// A message is handed out where its sequence number is taken, and is refused
/// for its number where it is not; only the window changes.
pub proof fn law_number_decides_receipt(
    c: GssContext,
    d: GssContext,
    seq: u64,
    msg: Seq<u8>,
    conf: bool,
    r: Result<(Vec<u8>, bool), Error>,
)
    requires
        received(c, d, seq, msg, conf, r),
    ensures
        r is Ok <==> seq_step(c.seq_state(), seq) is Some,
        r matches Ok(t) ==> t.0@ == msg && t.1 == conf && Some(d.seq_state()) == seq_step(
            c.seq_state(),
            seq,
        ) && d.session == c.session && d.send_seq == c.send_seq,
        r is Err ==> r == Err::<(Vec<u8>, bool), Error>(Error::Sequence) && d == c,
{
}

/// A token that is not sealed and whose checksum is not as long as it says, or
/// is wrong, is refused.
pub proof fn law_wrong_checksum_is_refused<
    C: Fn(&EncryptionKey, u32, &Vec<u8>, &Vec<u8>) -> CksumVerdict,
>(
    c: GssContext,
    d: GssContext,
    w: WrapToken,
    key: EncryptionKey,
    size: Option<usize>,
    check: C,
    r: Result<(Vec<u8>, bool), Error>,
)
    requires
        signed_received(c, d, w, key, size, check, r),
    ensures
        size is None ==> r is Err,
        size matches Some(n) ==> w.ec != n ==> r is Err,
        (forall|x: &Vec<u8>, m: &Vec<u8>, v: CksumVerdict| #[trigger]
            call_ensures(check, (&key, peer_wrap_usage(c.initiator), x, m), v) ==> v
                != CksumVerdict::Good) ==> r is Err,
        r is Err ==> d == c,
{
    if r is Ok {
        let split = w.payload@.len() - size->0;
        let verdict = choose|verdict: CksumVerdict|
            {
                &&& #[trigger] judged_payload(
                    check,
                    key,
                    peer_wrap_usage(c.initiator),
                    w,
                    split,
                    verdict,
                )
                &&& match cksum_result(verdict) {
                    Err(e) => r matches Err(x) && x == e && d == c,
                    Ok(()) => received(c, d, w.seq, w.payload@.take(split), false, r),
                }
            };
        assert(verdict == CksumVerdict::Good);
    }
}

/// What goes out has the next sequence number behind it, and nothing else of the
/// context changes; where nothing goes out, the context stays as it is.
pub proof fn law_sending_counts<E: Fn(&EncryptionKey, u32, &Vec<u8>) -> Result<Vec<u8>, Error>>(
    c: GssContext,
    d: GssContext,
    plaintext: Seq<u8>,
    ec: u16,
    rrc: u16,
    seal: E,
    r: Result<Vec<u8>, Error>,
)
    requires
        sealing_result(c, d, plaintext, ec, rrc, seal, r),
        c.send_seq < u64::MAX,
    ensures
        r is Ok ==> d.send_seq == c.send_seq + 1 && d.recv_seq == c.recv_seq && d.session
            == c.session && d.recv_window == c.recv_window && d.gss_flags == c.gss_flags,
        r is Err ==> d == c,
{
}

} // verus!
