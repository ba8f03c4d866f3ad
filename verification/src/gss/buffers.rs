//! Wrapping and unwrapping in buffers from beginning to end: what is made and
//! opened under a key comes in as functions.

use crate::bytes::{append, copy_range};
use crate::gss::context::{seq_step, GssContext};
use crate::gss::error::{inner_error, Error};
use crate::gss::iov::{
    cipher_mac_input, data_of, data_written, first_flags, has_associated, has_associated_data,
    has_buffer, has_kind, has_one, header_flags, iov_copy_data, iov_find, iov_hmac_cipher,
    iov_hmac_plain, join_wrap_token, joined_token, only_one, plain_mac_input, require_aes,
    same_shape, sealed_iov_result, signed_of, signed_placed, split_result, split_wrap_token,
    write_iov_data, IovBuf, IovType, SealedIov,
};
use crate::gss::message::{peer_wrap_usage, sealing_result, unwrap_result, wrap_usage};
use crate::gss::mic::{cksum_result, map_gss_cksum, CksumVerdict};
use crate::gss::wrap::{
    checksum_header, ends_in_header, header, mac_eq, open_wrap_token, rfc4121_ckhdr, seal_usage,
    sealed, sealed_plain, signed_split, token_flags, verify_enc_header, wrap_header,
    wrap_token_result, WrapToken, AES_CONFOUNDER, TOK_WRAP,
};
use crate::msg::EncryptionKey;
use crate::outside::random_octets;
use vstd::prelude::*;
use vstd::slice::slice_subrange;

verus! {

/// What a key is like, as far as buffers need it.
#[derive(Clone, Copy, Debug, PartialEq, Eq, Structural)]
pub struct IovKey {
    /// It is an AES key.
    pub aes: bool,
    /// Length of its checksums.
    pub hmac_len: u16,
    /// Its checksums cover the ciphertext, not the plaintext.
    pub cipher_signed: bool,
}

/// `integrity` gave `m` for these octets.
pub open spec fn signed_octets<H: Fn(&EncryptionKey, u32, &Vec<u8>) -> Result<Vec<u8>, Error>>(
    integrity: H,
    key: EncryptionKey,
    usage: u32,
    input: Seq<u8>,
    m: Result<Vec<u8>, Error>,
) -> bool {
    exists|p: Vec<u8>| p@ == input && #[trigger] call_ensures(integrity, (&key, usage, &p), m)
}

/// `seal_with` gave `x` for the data in the buffers and this confounder.
pub open spec fn confounded<
    T: Fn(&EncryptionKey, u32, &Vec<u8>, &Vec<u8>) -> Result<Vec<u8>, Error>,
>(
    c: GssContext,
    v: Seq<IovBuf>,
    conf: Vec<u8>,
    seal_with: T,
    x: Result<Vec<u8>, Error>,
) -> bool {
    exists|p: Vec<u8>|
        p@ == sealed_plain(data_of(v), c.seal_flags(), 0, c.send_seq) && #[trigger] call_ensures(
            seal_with,
            (&c.sending_key(), wrap_usage(c.initiator), &conf, &p),
            x,
        )
}

/// What the checksum covers where there is data that is signed only.
pub open spec fn associated_input(
    v: Seq<IovBuf>,
    k: IovKey,
    conf: Seq<u8>,
    cipher: Seq<u8>,
    plain: Seq<u8>,
    tok_hdr: Seq<u8>,
) -> Option<Seq<u8>> {
    if k.cipher_signed {
        cipher_mac_input(v, cipher)
    } else {
        plain_mac_input(v, conf, plain, tok_hdr)
    }
}

/// The token that comes of encrypted octets, where there is data that is
/// signed only.
pub open spec fn associated_signed<
    H: Fn(&EncryptionKey, u32, &Vec<u8>) -> Result<Vec<u8>, Error>,
>(
    c: GssContext,
    v: Seq<IovBuf>,
    k: IovKey,
    conf: Seq<u8>,
    cipher: Seq<u8>,
    integrity: H,
    r: Result<Vec<u8>, Error>,
) -> bool {
    let tok_hdr = header(c.seal_flags(), 0, 0, c.send_seq);
    let text = cipher.take(cipher.len() - k.hmac_len);
    if cipher.len() < k.hmac_len {
        r matches Err(e) && e == Error::Truncated
    } else {
        match associated_input(v, k, conf, text, data_of(v), tok_hdr) {
            None => r matches Err(e) && e == Error::Truncated,
            Some(input) => exists|m: Result<Vec<u8>, Error>|
                {
                    &&& #[trigger] signed_octets(
                        integrity,
                        c.sending_key(),
                        wrap_usage(c.initiator),
                        input,
                        m,
                    )
                    &&& match m {
                        Err(e) => r matches Err(x) && x == e,
                        Ok(mac) => if mac@.len() != k.hmac_len {
                            r matches Err(x) && x == Error::Truncated
                        } else {
                            r matches Ok(tok) && tok@ == tok_hdr + text + mac@
                        },
                    }
                },
        }
    }
}

/// The token of the data in the buffers, where there is data that is signed
/// only, made with this confounder.
pub open spec fn associated_token<
    T: Fn(&EncryptionKey, u32, &Vec<u8>, &Vec<u8>) -> Result<Vec<u8>, Error>,
    H: Fn(&EncryptionKey, u32, &Vec<u8>) -> Result<Vec<u8>, Error>,
>(
    c: GssContext,
    v: Seq<IovBuf>,
    k: IovKey,
    conf: Vec<u8>,
    seal_with: T,
    integrity: H,
    r: Result<Vec<u8>, Error>,
) -> bool {
    exists|x: Result<Vec<u8>, Error>| #[trigger]
        confounded(c, v, conf, seal_with, x) && (match x {
            Err(e) => r matches Err(y) && y == e,
            Ok(cipher) => associated_signed(c, v, k, conf@, cipher@, integrity, r),
        })
}

/// The buffers `v` become `w` when a token that was made is split into them.
pub open spec fn token_placed(
    v: Seq<IovBuf>,
    w: Seq<IovBuf>,
    k: IovKey,
    tok: Result<Vec<u8>, Error>,
    r: Result<(), Error>,
) -> bool {
    match tok {
        Err(e) => r == Err::<(), Error>(e) && w == v,
        Ok(t) => split_result(v, w, t@, data_of(v).len(), (16 + k.hmac_len) as nat, r),
    }
}

/// What sealing buffers comes to, where there is data that is signed only and
/// this confounder was drawn.
pub open spec fn wrap_associated_result<
    T: Fn(&EncryptionKey, u32, &Vec<u8>, &Vec<u8>) -> Result<Vec<u8>, Error>,
    H: Fn(&EncryptionKey, u32, &Vec<u8>) -> Result<Vec<u8>, Error>,
>(
    c: GssContext,
    d: GssContext,
    v: Seq<IovBuf>,
    w: Seq<IovBuf>,
    k: IovKey,
    conf: Vec<u8>,
    seal_with: T,
    integrity: H,
    r: Result<(), Error>,
) -> bool {
    if !has_kind(v, IovType::Data) {
        r == Err::<(), Error>(Error::Truncated) && d == c && w == v
    } else {
        exists|tok: Result<Vec<u8>, Error>|
            {
                &&& #[trigger] associated_token(c, v, k, conf, seal_with, integrity, tok)
                &&& token_placed(v, w, k, tok, r)
                &&& d == (if tok is Ok {
                    c.after_sending()
                } else {
                    c
                })
            }
    }
}

/// What sealing buffers comes to. Where there is data that is signed only, the
/// confounder is drawn at random, which may fail.
pub open spec fn wrap_iov_sealed_result<
    S: Fn(&EncryptionKey, u32, &Vec<u8>) -> Result<Vec<u8>, Error>,
    T: Fn(&EncryptionKey, u32, &Vec<u8>, &Vec<u8>) -> Result<Vec<u8>, Error>,
    H: Fn(&EncryptionKey, u32, &Vec<u8>) -> Result<Vec<u8>, Error>,
>(
    c: GssContext,
    d: GssContext,
    v: Seq<IovBuf>,
    w: Seq<IovBuf>,
    k: IovKey,
    seal: S,
    seal_with: T,
    integrity: H,
    r: Result<(), Error>,
) -> bool {
    if !has_kind(v, IovType::Data) {
        r == Err::<(), Error>(Error::Truncated) && d == c && w == v
    } else if !has_associated(v) {
        exists|tok: Result<Vec<u8>, Error>| #[trigger]
            sealing_result(c, d, data_of(v), 0, 0, seal, tok) && token_placed(v, w, k, tok, r)
    } else {
        ||| (r matches Err(e) && e is Inner) && d == c && w == v
        ||| exists|conf: Vec<u8>|
            conf@.len() == 16 && #[trigger] wrap_associated_result(
                c,
                d,
                v,
                w,
                k,
                conf,
                seal_with,
                integrity,
                r,
            )
    }
}

/// What signing buffers comes to.
pub open spec fn wrap_iov_integ_result<
    M: Fn(&EncryptionKey, u32, &Vec<u8>) -> Result<Vec<u8>, Error>,
>(
    c: GssContext,
    d: GssContext,
    v: Seq<IovBuf>,
    w: Seq<IovBuf>,
    mac: M,
    r: Result<(), Error>,
) -> bool {
    if !has_kind(v, IovType::Data) {
        r == Err::<(), Error>(Error::Truncated) && d == c && w == v
    } else {
        exists|m: Result<Vec<u8>, Error>|
            {
                &&& #[trigger] signed_octets(
                    mac,
                    c.sending_key(),
                    wrap_usage(c.initiator),
                    signed_of(v) + header(
                        token_flags(c.initiator, false, c.acceptor_subkey is Some),
                        0,
                        0,
                        c.send_seq,
                    ),
                    m,
                )
                &&& match m {
                    Err(e) => r == Err::<(), Error>(e) && d == c && w == v,
                    Ok(x) => signed_placed(c, d, v, w, x@, r),
                }
            }
    }
}

/// What wrapping in buffers comes to; `c` becomes `d` and the buffers `v`
/// become `w`.
pub open spec fn wrap_iov_result<
    K: Fn(&EncryptionKey) -> IovKey,
    S: Fn(&EncryptionKey, u32, &Vec<u8>) -> Result<Vec<u8>, Error>,
    T: Fn(&EncryptionKey, u32, &Vec<u8>, &Vec<u8>) -> Result<Vec<u8>, Error>,
    H: Fn(&EncryptionKey, u32, &Vec<u8>) -> Result<Vec<u8>, Error>,
    M: Fn(&EncryptionKey, u32, &Vec<u8>) -> Result<Vec<u8>, Error>,
>(
    c: GssContext,
    d: GssContext,
    conf: bool,
    v: Seq<IovBuf>,
    w: Seq<IovBuf>,
    kind: K,
    seal: S,
    seal_with: T,
    integrity: H,
    mac: M,
    r: Result<(), Error>,
) -> bool {
    exists|k: IovKey| #[trigger]
        call_ensures(kind, (&c.sending_key(),), k) && (if !k.aes {
            (r matches Err(e) && inner_error(e, "gss wrap_iov aes"@)) && d == c && w == v
        } else if conf {
            wrap_iov_sealed_result(c, d, v, w, k, seal, seal_with, integrity, r)
        } else {
            wrap_iov_integ_result(c, d, v, w, mac, r)
        })
}

impl GssContext {
    /// Sizes of header, padding and trailer in buffers.
    pub fn wrap_iov_length<K: Fn(&EncryptionKey) -> IovKey>(&self, conf: bool, kind: &K) -> (r:
        Result<(usize, usize, usize), Error>)
        requires
            forall|k: EncryptionKey| #[trigger] call_requires(*kind, (&k,)),
        ensures
            exists|k: IovKey| #[trigger]
                call_ensures(*kind, (&self.sending_key(),), k) && (match r {
                    Ok(t) => k.aes && t == (if conf {
                        (32usize, 0usize, (16 + k.hmac_len) as usize)
                    } else {
                        (16usize, 0usize, k.hmac_len as usize)
                    }),
                    Err(e) => !k.aes && inner_error(e, "gss wrap_iov aes"@),
                }),
    {
        let (key, _) = self.send_key();
        let k = kind(key);
        proof {
            assert(*key == self.sending_key());
            assert(call_ensures(*kind, (&self.sending_key(),), k));
        }
        match require_aes(k.aes) {
            Err(e) => Err(e),
            Ok(()) => if conf {
                Ok((16 + AES_CONFOUNDER, 0, 16 + k.hmac_len as usize))
            } else {
                Ok((16, 0, k.hmac_len as usize))
            },
        }
    }

    /// Makes the token of the data in buffers, where there is data that is
    /// signed only. The sequence number is not touched.
    fn associated_out<
        T: Fn(&EncryptionKey, u32, &Vec<u8>, &Vec<u8>) -> Result<Vec<u8>, Error>,
        H: Fn(&EncryptionKey, u32, &Vec<u8>) -> Result<Vec<u8>, Error>,
    >(
        &self,
        iov: &Vec<IovBuf>,
        plain: &Vec<u8>,
        k: IovKey,
        conf: &Vec<u8>,
        seal_with: &T,
        integrity: &H,
    ) -> (r: Result<Vec<u8>, Error>)
        requires
            plain@ == data_of(iov@),
            forall|y: EncryptionKey, u: u32, f: Vec<u8>, p: Vec<u8>| #[trigger]
                call_requires(*seal_with, (&y, u, &f, &p)),
            forall|y: EncryptionKey, u: u32, p: Vec<u8>| #[trigger]
                call_requires(*integrity, (&y, u, &p)),
        ensures
            associated_token(*self, iov@, k, *conf, *seal_with, *integrity, r),
    {
        let usage: u32 = seal_usage(self.initiator);
        let (key, _) = self.send_key();
        let to_enc = self.wrap_input(plain.as_slice(), 0);
        let x = seal_with(key, usage, conf, &to_enc);
        proof {
            assert(*key == self.sending_key());
            assert(confounded(*self, iov@, *conf, *seal_with, x));
        }
        let cipher = match x {
            Err(e) => {
                return Err(e);
            },
            Ok(c) => c,
        };
        let hmac_len: usize = k.hmac_len as usize;
        if cipher.len() < hmac_len {
            return Err(Error::Truncated);
        }
        let text = slice_subrange(cipher.as_slice(), 0, cipher.len() - hmac_len);
        proof {
            assert(text@ =~= cipher@.take(cipher@.len() - k.hmac_len));
        }
        let mut tok = wrap_header(
            self.initiator,
            true,
            self.acceptor_subkey.is_some(),
            0,
            0,
            self.send_seq,
        );
        let hmac_in = if k.cipher_signed {
            iov_hmac_cipher(iov, text)
        } else {
            iov_hmac_plain(iov, conf.as_slice(), plain.as_slice(), tok.as_slice())
        };
        let input = match hmac_in {
            Err(e) => {
                return Err(e);
            },
            Ok(i) => i,
        };
        let m = integrity(key, usage, &input);
        proof {
            assert(signed_octets(
                *integrity,
                self.sending_key(),
                wrap_usage(self.initiator),
                input@,
                m,
            ));
        }
        let mac = match m {
            Err(e) => {
                return Err(e);
            },
            Ok(m) => m,
        };
        if mac.len() != hmac_len {
            return Err(Error::Truncated);
        }
        append(&mut tok, text);
        append(&mut tok, mac.as_slice());
        Ok(tok)
    }

    /// Seals buffers in which there is data that is signed only, with this
    /// confounder.
    pub fn wrap_iov_associated<
        T: Fn(&EncryptionKey, u32, &Vec<u8>, &Vec<u8>) -> Result<Vec<u8>, Error>,
        H: Fn(&EncryptionKey, u32, &Vec<u8>) -> Result<Vec<u8>, Error>,
    >(
        &mut self,
        iov: &mut Vec<IovBuf>,
        k: IovKey,
        conf: &Vec<u8>,
        seal_with: &T,
        integrity: &H,
    ) -> (r: Result<(), Error>)
        requires
            forall|y: EncryptionKey, u: u32, f: Vec<u8>, p: Vec<u8>| #[trigger]
                call_requires(*seal_with, (&y, u, &f, &p)),
            forall|y: EncryptionKey, u: u32, p: Vec<u8>| #[trigger]
                call_requires(*integrity, (&y, u, &p)),
        ensures
            wrap_associated_result(
                *old(self),
                *final(self),
                old(iov)@,
                final(iov)@,
                k,
                *conf,
                *seal_with,
                *integrity,
                r,
            ),
    {
        let mut plain: Vec<u8> = Vec::new();
        match iov_copy_data(iov, &mut plain) {
            Err(e) => {
                return Err(e);
            },
            Ok(()) => {},
        }
        proof {
            assert(plain@ =~= data_of(iov@));
        }
        let t = self.associated_out(iov, &plain, k, conf, seal_with, integrity);
        proof {
            assert(associated_token(*old(self), old(iov)@, k, *conf, *seal_with, *integrity, t));
        }
        match t {
            Err(e) => Err(e),
            Ok(tok) => {
                self.send_seq = self.send_seq.wrapping_add(1);
                split_wrap_token(iov, tok.as_slice(), plain.len(), 16 + k.hmac_len as usize)
            },
        }
    }

    /// Seals buffers. Data is encrypted in place; data that is signed only is
    /// left as it is.
    pub fn wrap_iov_sealed<
        S: Fn(&EncryptionKey, u32, &Vec<u8>) -> Result<Vec<u8>, Error>,
        T: Fn(&EncryptionKey, u32, &Vec<u8>, &Vec<u8>) -> Result<Vec<u8>, Error>,
        H: Fn(&EncryptionKey, u32, &Vec<u8>) -> Result<Vec<u8>, Error>,
    >(
        &mut self,
        iov: &mut Vec<IovBuf>,
        k: IovKey,
        seal: &S,
        seal_with: &T,
        integrity: &H,
    ) -> (r: Result<(), Error>)
        requires
            forall|y: EncryptionKey, u: u32, p: Vec<u8>| #[trigger]
                call_requires(*seal, (&y, u, &p)),
            forall|y: EncryptionKey, u: u32, f: Vec<u8>, p: Vec<u8>| #[trigger]
                call_requires(*seal_with, (&y, u, &f, &p)),
            forall|y: EncryptionKey, u: u32, p: Vec<u8>| #[trigger]
                call_requires(*integrity, (&y, u, &p)),
        ensures
            wrap_iov_sealed_result(
                *old(self),
                *final(self),
                old(iov)@,
                final(iov)@,
                k,
                *seal,
                *seal_with,
                *integrity,
                r,
            ),
    {
        let mut plain: Vec<u8> = Vec::new();
        match iov_copy_data(iov, &mut plain) {
            Err(e) => {
                return Err(e);
            },
            Ok(()) => {},
        }
        proof {
            assert(plain@ =~= data_of(iov@));
        }
        if has_associated_data(iov) {
            let conf = match random_octets(AES_CONFOUNDER) {
                Err(t) => {
                    return Err(Error::Inner(t));
                },
                Ok(c) => c,
            };
            self.wrap_iov_associated(iov, k, &conf, seal_with, integrity)
        } else {
            let t = self.wrap(plain.as_slice(), seal);
            proof {
                assert(sealing_result(*old(self), *self, data_of(old(iov)@), 0, 0, *seal, t));
            }
            match t {
                Err(e) => Err(e),
                Ok(tok) => split_wrap_token(
                    iov,
                    tok.as_slice(),
                    plain.len(),
                    16 + k.hmac_len as usize,
                ),
            }
        }
    }

    /// Signs buffers: data and what is signed only. Refused where there is no data
    /// buffer.
    pub fn wrap_iov_integ<M: Fn(&EncryptionKey, u32, &Vec<u8>) -> Result<Vec<u8>, Error>>(
        &mut self,
        iov: &mut Vec<IovBuf>,
        mac: &M,
    ) -> (r: Result<(), Error>)
        requires
            forall|y: EncryptionKey, u: u32, p: Vec<u8>| #[trigger]
                call_requires(*mac, (&y, u, &p)),
        ensures
            wrap_iov_integ_result(*old(self), *final(self), old(iov)@, final(iov)@, *mac, r),
    {
        if !has_buffer(iov, IovType::Data) {
            return Err(Error::Truncated);
        }
        let input = self.wrap_iov_integ_input(iov);
        let (key, _) = self.send_key();
        let m = mac(key, seal_usage(self.initiator), &input);
        proof {
            assert(*key == old(self).sending_key());
            assert(signed_octets(
                *mac,
                old(self).sending_key(),
                wrap_usage(old(self).initiator),
                input@,
                m,
            ));
        }
        match m {
            Err(e) => Err(e),
            Ok(x) => self.place_signed(iov, x.as_slice()),
        }
    }

    /// Wraps in buffers: sealed where `conf` says so, else signed. `kind` says
    /// what a key is like, `seal` encrypts, `seal_with` encrypts with a
    /// confounder, `integrity` makes the checksum of encrypted octets and
    /// `mac` that of signed ones.
    pub fn wrap_iov<
        K: Fn(&EncryptionKey) -> IovKey,
        S: Fn(&EncryptionKey, u32, &Vec<u8>) -> Result<Vec<u8>, Error>,
        T: Fn(&EncryptionKey, u32, &Vec<u8>, &Vec<u8>) -> Result<Vec<u8>, Error>,
        H: Fn(&EncryptionKey, u32, &Vec<u8>) -> Result<Vec<u8>, Error>,
        M: Fn(&EncryptionKey, u32, &Vec<u8>) -> Result<Vec<u8>, Error>,
    >(
        &mut self,
        conf: bool,
        iov: &mut Vec<IovBuf>,
        kind: &K,
        seal: &S,
        seal_with: &T,
        integrity: &H,
        mac: &M,
    ) -> (r: Result<(), Error>)
        requires
            forall|y: EncryptionKey| #[trigger] call_requires(*kind, (&y,)),
            forall|y: EncryptionKey, u: u32, p: Vec<u8>| #[trigger]
                call_requires(*seal, (&y, u, &p)),
            forall|y: EncryptionKey, u: u32, f: Vec<u8>, p: Vec<u8>| #[trigger]
                call_requires(*seal_with, (&y, u, &f, &p)),
            forall|y: EncryptionKey, u: u32, p: Vec<u8>| #[trigger]
                call_requires(*integrity, (&y, u, &p)),
            forall|y: EncryptionKey, u: u32, p: Vec<u8>| #[trigger]
                call_requires(*mac, (&y, u, &p)),
        ensures
            wrap_iov_result(
                *old(self),
                *final(self),
                conf,
                old(iov)@,
                final(iov)@,
                *kind,
                *seal,
                *seal_with,
                *integrity,
                *mac,
                r,
            ),
    {
        let (key, _) = self.send_key();
        let k = kind(key);
        proof {
            assert(*key == old(self).sending_key());
            assert(call_ensures(*kind, (&old(self).sending_key(),), k));
        }
        match require_aes(k.aes) {
            Err(e) => {
                return Err(e);
            },
            Ok(()) => {},
        }
        if conf {
            self.wrap_iov_sealed(iov, k, seal, seal_with, integrity)
        } else {
            self.wrap_iov_integ(iov, mac)
        }
    }
}

/// Nothing came of the buffers.
pub open spec fn iov_refused(
    c: GssContext,
    d: GssContext,
    v: Seq<IovBuf>,
    w: Seq<IovBuf>,
    e: Error,
    r: Result<(), Error>,
) -> bool {
    r == Err::<(), Error>(e) && d == c && w == v
}

/// The message goes into the data buffers; refused where it is not as long as
/// they are.
pub open spec fn message_placed(
    v: Seq<IovBuf>,
    w: Seq<IovBuf>,
    msg: Seq<u8>,
    r: Result<(), Error>,
) -> bool {
    &&& same_shape(v, w)
    &&& if data_of(v).len() == msg.len() {
        r is Ok && data_written(v, w, msg)
    } else {
        r == Err::<(), Error>(Error::Truncated)
    }
}

/// A message whose sequence number is received goes into the data buffers.
pub open spec fn message_taken(
    c: GssContext,
    d: GssContext,
    v: Seq<IovBuf>,
    w: Seq<IovBuf>,
    seq: u64,
    msg: Seq<u8>,
    r: Result<(), Error>,
) -> bool {
    match seq_step(c.seq_state(), seq) {
        None => iov_refused(c, d, v, w, Error::Sequence, r),
        Some(st) => c.same_but_window(d) && d.seq_state() == st && message_placed(v, w, msg, r),
    }
}

/// The token in the buffers can be joined.
pub open spec fn joinable(v: Seq<IovBuf>) -> bool {
    has_one(v, IovType::Header) && has_kind(v, IovType::Data) && has_one(v, IovType::Trailer)
}

/// What unwrapping buffers comes to that hold a whole token under the key for
/// these flags.
pub open spec fn unwrap_joined_result<
    K: Fn(&EncryptionKey) -> IovKey,
    F: Fn(&EncryptionKey) -> Option<usize>,
    D: Fn(&EncryptionKey, u32, &Vec<u8>) -> Result<Vec<u8>, Error>,
    C: Fn(&EncryptionKey, u32, &Vec<u8>, &Vec<u8>) -> CksumVerdict,
>(
    c: GssContext,
    d: GssContext,
    v: Seq<IovBuf>,
    w: Seq<IovBuf>,
    flags: u8,
    kind: K,
    size_of: F,
    open: D,
    check: C,
    r: Result<(), Error>,
) -> bool {
    match c.key_for(flags) {
        None => (r matches Err(e) && inner_error(e, "gss acceptor subkey"@)) && d == c && w == v,
        Some(key) => exists|k: IovKey| #[trigger]
            call_ensures(kind, (&key,), k) && (if !k.aes {
                (r matches Err(e) && inner_error(e, "gss wrap_iov aes"@)) && d == c && w == v
            } else if !joinable(v) {
                iov_refused(c, d, v, w, Error::Truncated, r)
            } else {
                exists|q: Result<(Vec<u8>, bool), Error>| #[trigger]
                    unwrap_result(c, d, joined_token(v), size_of, open, check, q) && (match q {
                        Err(e) => r == Err::<(), Error>(e) && w == v,
                        Ok(t) => message_placed(v, w, t.0@, r),
                    })
            }),
    }
}

/// The message of a sealed token that was decrypted: the octets in front of its
/// header.
pub open spec fn decrypted_message(
    s: SealedIov,
    p: Result<(Vec<u8>, Vec<u8>), Error>,
    q: Result<Vec<u8>, Error>,
) -> bool {
    match p {
        Err(e) => q matches Err(x) && x == e,
        Ok(t) => if !ends_in_header(t.1@, s.flags, s.ec, s.seq) {
            q matches Err(x) && x == Error::Truncated
        } else {
            q matches Ok(m) && m@ == t.1@.take(t.1@.len() - 16)
        },
    }
}

/// What judging the checksum of a sealed token comes to; `input` is what it
/// covers.
pub open spec fn judged_buffers<H: Fn(&EncryptionKey, u32, &Vec<u8>) -> Result<Vec<u8>, Error>>(
    c: GssContext,
    s: SealedIov,
    input: Option<Seq<u8>>,
    integrity: H,
    r: Result<(), Error>,
) -> bool {
    match input {
        None => r == Err::<(), Error>(Error::Truncated),
        Some(octets) => exists|m: Result<Vec<u8>, Error>|
            {
                &&& #[trigger] signed_octets(
                    integrity,
                    c.key_for(s.flags)->0,
                    peer_wrap_usage(c.initiator),
                    octets,
                    m,
                )
                &&& r == (match m {
                    Err(e) => Err::<(), Error>(e),
                    Ok(x) => if x@ == s.mac@ {
                        Ok(())
                    } else {
                        Err(Error::Integrity)
                    },
                })
            },
    }
}

/// `open_cts` gave `p` for the ciphertext of a sealed token in buffers.
pub open spec fn opened_buffers<
    O: Fn(&EncryptionKey, u32, &Vec<u8>) -> Result<(Vec<u8>, Vec<u8>), Error>,
>(c: GssContext, s: SealedIov, open_cts: O, p: Result<(Vec<u8>, Vec<u8>), Error>) -> bool {
    call_ensures(
        open_cts,
        (&c.key_for(s.flags)->0, peer_wrap_usage(c.initiator), &s.cipher),
        p,
    )
}

/// The message of a sealed token whose checksum covers the ciphertext: the
/// checksum is judged before anything is decrypted.
pub open spec fn cipher_signed_message<
    O: Fn(&EncryptionKey, u32, &Vec<u8>) -> Result<(Vec<u8>, Vec<u8>), Error>,
    H: Fn(&EncryptionKey, u32, &Vec<u8>) -> Result<Vec<u8>, Error>,
>(
    c: GssContext,
    v: Seq<IovBuf>,
    s: SealedIov,
    open_cts: O,
    integrity: H,
    q: Result<Vec<u8>, Error>,
) -> bool {
    exists|j: Result<(), Error>| #[trigger]
        judged_buffers(c, s, cipher_mac_input(v, s.cipher@), integrity, j) && (match j {
            Err(e) => q matches Err(x) && x == e,
            Ok(()) => exists|p: Result<(Vec<u8>, Vec<u8>), Error>| #[trigger]
                opened_buffers(c, s, open_cts, p) && decrypted_message(s, p, q),
        })
}

/// The message of a sealed token whose checksum covers the plaintext: it is
/// judged once the token was decrypted.
pub open spec fn plain_signed_message<
    O: Fn(&EncryptionKey, u32, &Vec<u8>) -> Result<(Vec<u8>, Vec<u8>), Error>,
    H: Fn(&EncryptionKey, u32, &Vec<u8>) -> Result<Vec<u8>, Error>,
>(
    c: GssContext,
    v: Seq<IovBuf>,
    s: SealedIov,
    open_cts: O,
    integrity: H,
    q: Result<Vec<u8>, Error>,
) -> bool {
    exists|p: Result<(Vec<u8>, Vec<u8>), Error>, m: Result<Vec<u8>, Error>|
        {
            &&& #[trigger] opened_buffers(c, s, open_cts, p)
            &&& #[trigger] decrypted_message(s, p, m)
            &&& match m {
                Err(e) => q matches Err(x) && x == e,
                Ok(msg) => exists|j: Result<(), Error>|
                    {
                        &&& #[trigger] judged_buffers(
                            c,
                            s,
                            plain_mac_input(v, (p->Ok_0).0@, msg@, s.tok_hdr@),
                            integrity,
                            j,
                        )
                        &&& match j {
                            Err(e) => q matches Err(x) && x == e,
                            Ok(()) => q matches Ok(y) && y@ == msg@,
                        }
                    },
            }
        }
}

/// The message of a sealed token in buffers, taken apart, where there is data
/// that is signed only.
pub open spec fn associated_message<
    O: Fn(&EncryptionKey, u32, &Vec<u8>) -> Result<(Vec<u8>, Vec<u8>), Error>,
    H: Fn(&EncryptionKey, u32, &Vec<u8>) -> Result<Vec<u8>, Error>,
>(
    c: GssContext,
    v: Seq<IovBuf>,
    k: IovKey,
    s: SealedIov,
    open_cts: O,
    integrity: H,
    q: Result<Vec<u8>, Error>,
) -> bool {
    if k.cipher_signed {
        cipher_signed_message(c, v, s, open_cts, integrity, q)
    } else {
        plain_signed_message(c, v, s, open_cts, integrity, q)
    }
}

/// `kind` said `k` of the key for these flags, where there is one.
pub open spec fn key_kind<K: Fn(&EncryptionKey) -> IovKey>(
    c: GssContext,
    flags: u8,
    kind: K,
    k: IovKey,
) -> bool {
    c.key_for(flags) matches Some(key) ==> call_ensures(kind, (&key,), k)
}

/// The sequence number and the message in sealed buffers, where there is data
/// that is signed only.
pub open spec fn associated_read<
    K: Fn(&EncryptionKey) -> IovKey,
    O: Fn(&EncryptionKey, u32, &Vec<u8>) -> Result<(Vec<u8>, Vec<u8>), Error>,
    H: Fn(&EncryptionKey, u32, &Vec<u8>) -> Result<Vec<u8>, Error>,
>(
    c: GssContext,
    v: Seq<IovBuf>,
    flags: u8,
    kind: K,
    open_cts: O,
    integrity: H,
    q: Result<(u64, Vec<u8>), Error>,
) -> bool {
    exists|k: IovKey, s: Result<SealedIov, Error>|
        {
            &&& #[trigger] key_kind(c, flags, kind, k)
            &&& #[trigger] sealed_iov_result(c, v, k.aes, k.hmac_len as nat, s)
            &&& match s {
                Err(e) => q matches Err(x) && x == e,
                Ok(t) => exists|m: Result<Vec<u8>, Error>|
                    {
                        &&& #[trigger] associated_message(c, v, k, t, open_cts, integrity, m)
                        &&& match m {
                            Err(e) => q matches Err(x) && x == e,
                            Ok(msg) => q matches Ok(y) && y.0 == t.seq && y.1 == msg,
                        }
                    },
            }
        }
}

/// What unwrapping sealed buffers comes to, where there is data that is signed
/// only.
pub open spec fn unwrap_associated_result<
    K: Fn(&EncryptionKey) -> IovKey,
    O: Fn(&EncryptionKey, u32, &Vec<u8>) -> Result<(Vec<u8>, Vec<u8>), Error>,
    H: Fn(&EncryptionKey, u32, &Vec<u8>) -> Result<Vec<u8>, Error>,
>(
    c: GssContext,
    d: GssContext,
    v: Seq<IovBuf>,
    w: Seq<IovBuf>,
    flags: u8,
    kind: K,
    open_cts: O,
    integrity: H,
    r: Result<(), Error>,
) -> bool {
    exists|q: Result<(u64, Vec<u8>), Error>| #[trigger]
        associated_read(c, v, flags, kind, open_cts, integrity, q) && (match q {
            Err(e) => iov_refused(c, d, v, w, e, r),
            Ok(t) => message_taken(c, d, v, w, t.0, t.1@, r),
        })
}

/// `check` gave `verdict` of the checksum of signed buffers: it covers the row of
/// data and of what is signed only, and the header.
pub open spec fn judged_row<C: Fn(&EncryptionKey, u32, &Vec<u8>, &Vec<u8>) -> CksumVerdict>(
    c: GssContext,
    t: WrapToken,
    input: Seq<u8>,
    mac: Seq<u8>,
    check: C,
    verdict: CksumVerdict,
) -> bool {
    exists|x: Vec<u8>, m: Vec<u8>|
        x@ == input && m@ == mac && #[trigger] call_ensures(
            check,
            (&c.key_for(t.flags)->0, peer_wrap_usage(c.initiator), &x, &m),
            verdict,
        )
}

/// What the checksum of signed buffers covers; `msg` is their data.
pub open spec fn row_input(v: Seq<IovBuf>, t: WrapToken, msg: Seq<u8>) -> Option<Seq<u8>> {
    plain_mac_input(
        v,
        Seq::empty(),
        msg,
        checksum_header(TOK_WRAP@, t.flags, t.seq, false),
    )
}

/// The message of signed buffers, where there is data that is signed only and
/// the token was taken apart. `size` is the length of the key's checksums.
pub open spec fn signed_message<C: Fn(&EncryptionKey, u32, &Vec<u8>, &Vec<u8>) -> CksumVerdict>(
    c: GssContext,
    v: Seq<IovBuf>,
    t: WrapToken,
    size: Option<usize>,
    check: C,
    q: Result<(u64, Vec<u8>), Error>,
) -> bool {
    if size is None || size->0 > t.payload@.len() || t.ec != size->0 {
        q matches Err(x) && x == Error::Truncated
    } else {
        let split = t.payload@.len() - size->0;
        let msg = t.payload@.take(split);
        match row_input(v, t, msg) {
            None => q matches Err(x) && x == Error::Truncated,
            Some(input) => exists|verdict: CksumVerdict|
                {
                    &&& #[trigger] judged_row(c, t, input, t.payload@.skip(split), check, verdict)
                    &&& match cksum_result(verdict) {
                        Err(e) => q matches Err(x) && x == e,
                        Ok(()) => q matches Ok(y) && y.0 == t.seq && y.1@ == msg,
                    }
                },
        }
    }
}

/// The sequence number and the message in signed buffers, where there is data
/// that is signed only.
pub open spec fn signed_read<
    F: Fn(&EncryptionKey) -> Option<usize>,
    C: Fn(&EncryptionKey, u32, &Vec<u8>, &Vec<u8>) -> CksumVerdict,
>(
    c: GssContext,
    v: Seq<IovBuf>,
    size_of: F,
    check: C,
    q: Result<(u64, Vec<u8>), Error>,
) -> bool {
    exists|t: Result<WrapToken, Error>| #[trigger]
        wrap_token_result(joined_token(v), c.initiator, t) && (match t {
            Err(e) => q matches Err(x) && x == e,
            Ok(w) => if sealed(w.flags) {
                q matches Err(x) && x == Error::Truncated
            } else {
                match c.key_for(w.flags) {
                    None => q matches Err(x) && inner_error(x, "gss acceptor subkey"@),
                    Some(key) => exists|size: Option<usize>| #[trigger]
                        call_ensures(size_of, (&key,), size) && signed_message(
                            c,
                            v,
                            w,
                            size,
                            check,
                            q,
                        ),
                }
            },
        })
}

/// What unwrapping signed buffers comes to, where there is data that is signed
/// only and the first header has these flags.
pub open spec fn unwrap_signed_result<
    K: Fn(&EncryptionKey) -> IovKey,
    F: Fn(&EncryptionKey) -> Option<usize>,
    C: Fn(&EncryptionKey, u32, &Vec<u8>, &Vec<u8>) -> CksumVerdict,
>(
    c: GssContext,
    d: GssContext,
    v: Seq<IovBuf>,
    w: Seq<IovBuf>,
    flags: u8,
    kind: K,
    size_of: F,
    check: C,
    r: Result<(), Error>,
) -> bool {
    match c.key_for(flags) {
        None => (r matches Err(e) && inner_error(e, "gss acceptor subkey"@)) && d == c && w == v,
        Some(key) => exists|k: IovKey| #[trigger]
            call_ensures(kind, (&key,), k) && (if !k.aes {
                (r matches Err(e) && inner_error(e, "gss wrap_iov aes"@)) && d == c && w == v
            } else if !joinable(v) {
                iov_refused(c, d, v, w, Error::Truncated, r)
            } else {
                exists|q: Result<(u64, Vec<u8>), Error>| #[trigger]
                    signed_read(c, v, size_of, check, q) && (match q {
                        Err(e) => iov_refused(c, d, v, w, e, r),
                        Ok(t) => message_taken(c, d, v, w, t.0, t.1@, r),
                    })
            }),
    }
}

/// What unwrapping in buffers comes to; `c` becomes `d` and the buffers `v`
/// become `w`.
pub open spec fn unwrap_iov_result<
    K: Fn(&EncryptionKey) -> IovKey,
    F: Fn(&EncryptionKey) -> Option<usize>,
    D: Fn(&EncryptionKey, u32, &Vec<u8>) -> Result<Vec<u8>, Error>,
    C: Fn(&EncryptionKey, u32, &Vec<u8>, &Vec<u8>) -> CksumVerdict,
    O: Fn(&EncryptionKey, u32, &Vec<u8>) -> Result<(Vec<u8>, Vec<u8>), Error>,
    H: Fn(&EncryptionKey, u32, &Vec<u8>) -> Result<Vec<u8>, Error>,
>(
    c: GssContext,
    d: GssContext,
    v: Seq<IovBuf>,
    w: Seq<IovBuf>,
    kind: K,
    size_of: F,
    open: D,
    check: C,
    open_cts: O,
    integrity: H,
    r: Result<(), Error>,
) -> bool {
    match first_flags(v) {
        None => iov_refused(c, d, v, w, Error::Truncated, r),
        Some(f) => if !sealed(f) && has_associated(v) {
            unwrap_signed_result(c, d, v, w, f, kind, size_of, check, r)
        } else if !sealed(f) {
            unwrap_joined_result(c, d, v, w, f, kind, size_of, open, check, r)
        } else if has_associated(v) {
            unwrap_associated_result(c, d, v, w, f, kind, open_cts, integrity, r)
        } else if !has_one(v, IovType::Header) {
            iov_refused(c, d, v, w, Error::Truncated, r)
        } else {
            unwrap_joined_result(c, d, v, w, f, kind, size_of, open, check, r)
        },
    }
}

/// The only header buffer is the first one.
pub proof fn lemma_only_header_is_first(v: Seq<IovBuf>, i: int)
    requires
        0 <= i < v.len(),
        v[i].kind == IovType::Header,
        forall|j: int| 0 <= j < v.len() && j != i ==> (#[trigger] v[j]).kind != IovType::Header,
    ensures
        first_flags(v) == (if v[i].data@.len() > 2 {
            Some(v[i].data@[2])
        } else {
            None
        }),
    decreases v.len(),
{
    if i > 0 {
        let t = v.skip(1);
        assert(v[0].kind != IovType::Header);
        assert(t[i - 1] == v[i]);
        assert forall|j: int| 0 <= j < t.len() && j != i - 1 implies (#[trigger] t[j]).kind
            != IovType::Header by {
            assert(t[j] == v[j + 1]);
        }
        lemma_only_header_is_first(t, i - 1);
    }
}

/// The message of a sealed token that was decrypted.
fn decrypted_octets(s: &SealedIov, plain: &Vec<u8>) -> (q: Result<Vec<u8>, Error>)
    ensures
        if !ends_in_header(plain@, s.flags, s.ec, s.seq) {
            q matches Err(x) && x == Error::Truncated
        } else {
            q matches Ok(m) && m@ == plain@.take(plain@.len() - 16)
        },
{
    if !verify_enc_header(plain.as_slice(), s.flags, s.ec, s.seq) {
        return Err(Error::Truncated);
    }
    let msg = copy_range(plain.as_slice(), 0, plain.len() - 16);
    proof {
        assert(msg@ =~= plain@.take(plain@.len() - 16));
    }
    Ok(msg)
}

impl GssContext {
    /// Ends the unwrapping of a sealed token in buffers: its sequence number
    /// is received, and the data buffers get the message.
    fn take_message(&mut self, iov: &mut Vec<IovBuf>, seq: u64, msg: &[u8]) -> (r: Result<
        (),
        Error,
    >)
        requires
            old(self).wf(),
        ensures
            final(self).wf(),
            message_taken(*old(self), *final(self), old(iov)@, final(iov)@, seq, msg@, r),
    {
        match self.accept_seq(seq) {
            Err(e) => Err(e),
            Ok(()) => write_iov_data(iov, msg),
        }
    }

    /// Unwraps buffers that hold a whole token under the key for these flags.
    fn unwrap_iov_joined<
        K: Fn(&EncryptionKey) -> IovKey,
        F: Fn(&EncryptionKey) -> Option<usize>,
        D: Fn(&EncryptionKey, u32, &Vec<u8>) -> Result<Vec<u8>, Error>,
        C: Fn(&EncryptionKey, u32, &Vec<u8>, &Vec<u8>) -> CksumVerdict,
    >(
        &mut self,
        iov: &mut Vec<IovBuf>,
        flags: u8,
        kind: &K,
        size_of: &F,
        open: &D,
        check: &C,
    ) -> (r: Result<(), Error>)
        requires
            old(self).wf(),
            forall|k: EncryptionKey| #[trigger] call_requires(*kind, (&k,)),
            forall|k: EncryptionKey| #[trigger] call_requires(*size_of, (&k,)),
            forall|k: EncryptionKey, u: u32, p: Vec<u8>| #[trigger]
                call_requires(*open, (&k, u, &p)),
            forall|k: EncryptionKey, u: u32, x: Vec<u8>, m: Vec<u8>| #[trigger]
                call_requires(*check, (&k, u, &x, &m)),
        ensures
            final(self).wf(),
            unwrap_joined_result(
                *old(self),
                *final(self),
                old(iov)@,
                final(iov)@,
                flags,
                *kind,
                *size_of,
                *open,
                *check,
                r,
            ),
    {
        let k: IovKey = match self.recv_key(flags) {
            Err(e) => {
                return Err(e);
            },
            Ok(key) => kind(key),
        };
        proof {
            assert(call_ensures(*kind, (&old(self).key_for(flags)->0,), k));
        }
        match require_aes(k.aes) {
            Err(e) => {
                return Err(e);
            },
            Ok(()) => {},
        }
        let tok = match join_wrap_token(iov) {
            Err(e) => {
                return Err(e);
            },
            Ok(t) => t,
        };
        let q = self.unwrap_conf(tok.as_slice(), size_of, open, check);
        proof {
            assert(unwrap_result(
                *old(self),
                *self,
                joined_token(old(iov)@),
                *size_of,
                *open,
                *check,
                q,
            ));
        }
        match q {
            Err(e) => Err(e),
            Ok((m, _)) => write_iov_data(iov, m.as_slice()),
        }
    }

    /// Reads signed buffers in which there is data that is signed only.
    fn read_signed<
        F: Fn(&EncryptionKey) -> Option<usize>,
        C: Fn(&EncryptionKey, u32, &Vec<u8>, &Vec<u8>) -> CksumVerdict,
    >(&self, iov: &Vec<IovBuf>, tok: &[u8], size_of: &F, check: &C) -> (q: Result<
        (u64, Vec<u8>),
        Error,
    >)
        requires
            tok@ == joined_token(iov@),
            forall|k: EncryptionKey| #[trigger] call_requires(*size_of, (&k,)),
            forall|k: EncryptionKey, u: u32, x: Vec<u8>, m: Vec<u8>| #[trigger]
                call_requires(*check, (&k, u, &x, &m)),
        ensures
            signed_read(*self, iov@, *size_of, *check, q),
    {
        let t = open_wrap_token(tok, self.initiator);
        proof {
            assert(wrap_token_result(joined_token(iov@), self.initiator, t));
        }
        let w = match t {
            Err(e) => {
                return Err(e);
            },
            Ok(w) => w,
        };
        if w.flags / 2 % 2 == 1 {
            return Err(Error::Truncated);
        }
        let key = match self.recv_key(w.flags) {
            Err(e) => {
                return Err(e);
            },
            Ok(k) => k,
        };
        let size: Option<usize> = size_of(key);
        proof {
            assert(call_ensures(*size_of, (&self.key_for(w.flags)->0,), size));
        }
        let n: usize = match size {
            None => {
                return Err(Error::Truncated);
            },
            Some(n) => n,
        };
        let split: usize = match signed_split(&w, n) {
            Err(e) => {
                return Err(e);
            },
            Ok(i) => i,
        };
        let msg = copy_range(w.payload.as_slice(), 0, split);
        let mac = copy_range(w.payload.as_slice(), split, w.payload.len());
        proof {
            assert(msg@ =~= w.payload@.take(split as int));
            assert(mac@ =~= w.payload@.skip(split as int));
        }
        let hdr = rfc4121_ckhdr(TOK_WRAP, w.flags, w.seq, false);
        let none: Vec<u8> = Vec::new();
        proof {
            assert(none@ =~= Seq::<u8>::empty());
        }
        let input = match iov_hmac_plain(
            iov,
            none.as_slice(),
            msg.as_slice(),
            hdr.as_slice(),
        ) {
            Err(e) => {
                return Err(e);
            },
            Ok(i) => i,
        };
        let verdict = check(key, seal_usage(!self.initiator), &input, &mac);
        proof {
            assert(judged_row(*self, w, input@, mac@, *check, verdict));
        }
        match map_gss_cksum(verdict) {
            Err(e) => Err(e),
            Ok(()) => Ok((w.seq, msg)),
        }
    }

    /// Unwraps signed buffers in which there is data that is signed only.
    fn unwrap_iov_signed<
        K: Fn(&EncryptionKey) -> IovKey,
        F: Fn(&EncryptionKey) -> Option<usize>,
        C: Fn(&EncryptionKey, u32, &Vec<u8>, &Vec<u8>) -> CksumVerdict,
    >(&mut self, iov: &mut Vec<IovBuf>, flags: u8, kind: &K, size_of: &F, check: &C) -> (r: Result<
        (),
        Error,
    >)
        requires
            old(self).wf(),
            forall|k: EncryptionKey| #[trigger] call_requires(*kind, (&k,)),
            forall|k: EncryptionKey| #[trigger] call_requires(*size_of, (&k,)),
            forall|k: EncryptionKey, u: u32, x: Vec<u8>, m: Vec<u8>| #[trigger]
                call_requires(*check, (&k, u, &x, &m)),
        ensures
            final(self).wf(),
            unwrap_signed_result(
                *old(self),
                *final(self),
                old(iov)@,
                final(iov)@,
                flags,
                *kind,
                *size_of,
                *check,
                r,
            ),
    {
        let k: IovKey = match self.recv_key(flags) {
            Err(e) => {
                return Err(e);
            },
            Ok(key) => kind(key),
        };
        proof {
            assert(call_ensures(*kind, (&old(self).key_for(flags)->0,), k));
        }
        match require_aes(k.aes) {
            Err(e) => {
                return Err(e);
            },
            Ok(()) => {},
        }
        let tok = match join_wrap_token(iov) {
            Err(e) => {
                return Err(e);
            },
            Ok(t) => t,
        };
        let q = self.read_signed(iov, tok.as_slice(), size_of, check);
        proof {
            assert(signed_read(*old(self), old(iov)@, *size_of, *check, q));
        }
        match q {
            Err(e) => Err(e),
            Ok((seq, msg)) => self.take_message(iov, seq, msg.as_slice()),
        }
    }

    /// Judges the checksum of a sealed token in buffers.
    fn judge_buffers<H: Fn(&EncryptionKey, u32, &Vec<u8>) -> Result<Vec<u8>, Error>>(
        &self,
        s: &SealedIov,
        key: &EncryptionKey,
        hmac_in: Result<Vec<u8>, Error>,
        Ghost(input): Ghost<Option<Seq<u8>>>,
        integrity: &H,
    ) -> (r: Result<(), Error>)
        requires
            self.key_for(s.flags) == Some(*key),
            match input {
                Some(x) => hmac_in matches Ok(v) && v@ == x,
                None => hmac_in matches Err(e) && e == Error::Truncated,
            },
            forall|k: EncryptionKey, u: u32, p: Vec<u8>| #[trigger]
                call_requires(*integrity, (&k, u, &p)),
        ensures
            judged_buffers(*self, *s, input, *integrity, r),
    {
        let octets = match hmac_in {
            Err(e) => {
                return Err(e);
            },
            Ok(x) => x,
        };
        let m = integrity(key, seal_usage(!self.initiator), &octets);
        proof {
            assert(signed_octets(
                *integrity,
                self.key_for(s.flags)->0,
                peer_wrap_usage(self.initiator),
                octets@,
                m,
            ));
        }
        match m {
            Err(e) => Err(e),
            Ok(x) => if mac_eq(s.mac.as_slice(), x.as_slice()) {
                Ok(())
            } else {
                Err(Error::Integrity)
            },
        }
    }

    /// The message of a sealed token whose checksum covers the ciphertext.
    fn read_cipher_signed<
        O: Fn(&EncryptionKey, u32, &Vec<u8>) -> Result<(Vec<u8>, Vec<u8>), Error>,
        H: Fn(&EncryptionKey, u32, &Vec<u8>) -> Result<Vec<u8>, Error>,
    >(
        &self,
        iov: &Vec<IovBuf>,
        s: &SealedIov,
        key: &EncryptionKey,
        open_cts: &O,
        integrity: &H,
    ) -> (q: Result<Vec<u8>, Error>)
        requires
            self.key_for(s.flags) == Some(*key),
            forall|k: EncryptionKey, u: u32, p: Vec<u8>| #[trigger]
                call_requires(*open_cts, (&k, u, &p)),
            forall|k: EncryptionKey, u: u32, p: Vec<u8>| #[trigger]
                call_requires(*integrity, (&k, u, &p)),
        ensures
            cipher_signed_message(*self, iov@, *s, *open_cts, *integrity, q),
    {
        let ghost input = cipher_mac_input(iov@, s.cipher@);
        let hmac_in = iov_hmac_cipher(iov, s.cipher.as_slice());
        let j = self.judge_buffers(s, key, hmac_in, Ghost(input), integrity);
        proof {
            assert(judged_buffers(*self, *s, input, *integrity, j));
        }
        match j {
            Err(e) => {
                return Err(e);
            },
            Ok(()) => {},
        }
        let p = open_cts(key, seal_usage(!self.initiator), &s.cipher);
        proof {
            assert(opened_buffers(*self, *s, *open_cts, p));
        }
        match p {
            Err(e) => Err(e),
            Ok((_, plain)) => decrypted_octets(s, &plain),
        }
    }

    /// The message of a sealed token whose checksum covers the plaintext.
    fn read_plain_signed<
        O: Fn(&EncryptionKey, u32, &Vec<u8>) -> Result<(Vec<u8>, Vec<u8>), Error>,
        H: Fn(&EncryptionKey, u32, &Vec<u8>) -> Result<Vec<u8>, Error>,
    >(
        &self,
        iov: &Vec<IovBuf>,
        s: &SealedIov,
        key: &EncryptionKey,
        open_cts: &O,
        integrity: &H,
    ) -> (q: Result<Vec<u8>, Error>)
        requires
            self.key_for(s.flags) == Some(*key),
            forall|k: EncryptionKey, u: u32, p: Vec<u8>| #[trigger]
                call_requires(*open_cts, (&k, u, &p)),
            forall|k: EncryptionKey, u: u32, p: Vec<u8>| #[trigger]
                call_requires(*integrity, (&k, u, &p)),
        ensures
            plain_signed_message(*self, iov@, *s, *open_cts, *integrity, q),
    {
        let p = open_cts(key, seal_usage(!self.initiator), &s.cipher);
        proof {
            assert(opened_buffers(*self, *s, *open_cts, p));
        }
        let (conf, plain) = match p {
            Err(e) => {
                proof {
                    assert(decrypted_message(*s, p, Err(e)));
                }
                return Err(e);
            },
            Ok(t) => t,
        };
        let m = decrypted_octets(s, &plain);
        proof {
            assert(decrypted_message(*s, p, m));
        }
        let msg = match m {
            Err(e) => {
                return Err(e);
            },
            Ok(x) => x,
        };
        let ghost input = plain_mac_input(iov@, conf@, msg@, s.tok_hdr@);
        let hmac_in = iov_hmac_plain(
            iov,
            conf.as_slice(),
            msg.as_slice(),
            s.tok_hdr.as_slice(),
        );
        let j = self.judge_buffers(s, key, hmac_in, Ghost(input), integrity);
        proof {
            assert(judged_buffers(*self, *s, input, *integrity, j));
        }
        match j {
            Err(e) => Err(e),
            Ok(()) => Ok(msg),
        }
    }

    /// Reads sealed buffers in which there is data that is signed only.
    fn read_associated<
        K: Fn(&EncryptionKey) -> IovKey,
        O: Fn(&EncryptionKey, u32, &Vec<u8>) -> Result<(Vec<u8>, Vec<u8>), Error>,
        H: Fn(&EncryptionKey, u32, &Vec<u8>) -> Result<Vec<u8>, Error>,
    >(
        &self,
        iov: &Vec<IovBuf>,
        flags: u8,
        kind: &K,
        open_cts: &O,
        integrity: &H,
    ) -> (q: Result<(u64, Vec<u8>), Error>)
        requires
            first_flags(iov@) == Some(flags),
            forall|k: EncryptionKey| #[trigger] call_requires(*kind, (&k,)),
            forall|k: EncryptionKey, u: u32, p: Vec<u8>| #[trigger]
                call_requires(*open_cts, (&k, u, &p)),
            forall|k: EncryptionKey, u: u32, p: Vec<u8>| #[trigger]
                call_requires(*integrity, (&k, u, &p)),
        ensures
            associated_read(*self, iov@, flags, *kind, *open_cts, *integrity, q),
    {
        let found = self.recv_key(flags);
        let k: IovKey = match &found {
            Ok(key) => kind(key),
            Err(_) => IovKey { aes: false, hmac_len: 0, cipher_signed: false },
        };
        let o = self.open_sealed_iov(iov, k.aes, k.hmac_len as usize);
        proof {
            assert(key_kind(*self, flags, *kind, k));
            assert(sealed_iov_result(*self, iov@, k.aes, k.hmac_len as nat, o));
            if o is Ok {
                let i = choose|i: int| only_one(iov@, IovType::Header, i);
                lemma_only_header_is_first(iov@, i);
            }
        }
        match (o, found) {
            (Ok(s), Ok(key)) => {
                let m = if k.cipher_signed {
                    self.read_cipher_signed(iov, &s, key, open_cts, integrity)
                } else {
                    self.read_plain_signed(iov, &s, key, open_cts, integrity)
                };
                proof {
                    assert(associated_message(*self, iov@, k, s, *open_cts, *integrity, m));
                }
                match m {
                    Err(e) => Err(e),
                    Ok(msg) => Ok((s.seq, msg)),
                }
            },
            (Err(e), _) => Err(e),
            (_, Err(e)) => Err(e),
        }
    }

    /// Unwraps in buffers: the data buffers get the message. `kind` says what a
    /// key is like, `size_of` gives the length of its checksums, `open`
    /// decrypts, `check` judges a checksum, `open_cts` decrypts into confounder
    /// and text without judging the checksum, and `integrity` makes one.
    pub fn unwrap_iov<
        K: Fn(&EncryptionKey) -> IovKey,
        F: Fn(&EncryptionKey) -> Option<usize>,
        D: Fn(&EncryptionKey, u32, &Vec<u8>) -> Result<Vec<u8>, Error>,
        C: Fn(&EncryptionKey, u32, &Vec<u8>, &Vec<u8>) -> CksumVerdict,
        O: Fn(&EncryptionKey, u32, &Vec<u8>) -> Result<(Vec<u8>, Vec<u8>), Error>,
        H: Fn(&EncryptionKey, u32, &Vec<u8>) -> Result<Vec<u8>, Error>,
    >(
        &mut self,
        iov: &mut Vec<IovBuf>,
        kind: &K,
        size_of: &F,
        open: &D,
        check: &C,
        open_cts: &O,
        integrity: &H,
    ) -> (r: Result<(), Error>)
        requires
            old(self).wf(),
            forall|k: EncryptionKey| #[trigger] call_requires(*kind, (&k,)),
            forall|k: EncryptionKey| #[trigger] call_requires(*size_of, (&k,)),
            forall|k: EncryptionKey, u: u32, p: Vec<u8>| #[trigger]
                call_requires(*open, (&k, u, &p)),
            forall|k: EncryptionKey, u: u32, x: Vec<u8>, m: Vec<u8>| #[trigger]
                call_requires(*check, (&k, u, &x, &m)),
            forall|k: EncryptionKey, u: u32, p: Vec<u8>| #[trigger]
                call_requires(*open_cts, (&k, u, &p)),
            forall|k: EncryptionKey, u: u32, p: Vec<u8>| #[trigger]
                call_requires(*integrity, (&k, u, &p)),
        ensures
            final(self).wf(),
            unwrap_iov_result(
                *old(self),
                *final(self),
                old(iov)@,
                final(iov)@,
                *kind,
                *size_of,
                *open,
                *check,
                *open_cts,
                *integrity,
                r,
            ),
    {
        let flags: u8 = match header_flags(iov) {
            Err(e) => {
                return Err(e);
            },
            Ok(f) => f,
        };
        if flags / 2 % 2 == 0 {
            if has_associated_data(iov) {
                return self.unwrap_iov_signed(iov, flags, kind, size_of, check);
            }
            return self.unwrap_iov_joined(iov, flags, kind, size_of, open, check);
        }
        if has_associated_data(iov) {
            let q = self.read_associated(iov, flags, kind, open_cts, integrity);
            proof {
                assert(associated_read(
                    *old(self),
                    old(iov)@,
                    flags,
                    *kind,
                    *open_cts,
                    *integrity,
                    q,
                ));
            }
            return match q {
                Err(e) => Err(e),
                Ok((seq, msg)) => self.take_message(iov, seq, msg.as_slice()),
            };
        }
        match iov_find(iov, IovType::Header) {
            Err(e) => Err(e),
            Ok(_) => self.unwrap_iov_joined(iov, flags, kind, size_of, open, check),
        }
    }
}

/// Buffers without data are not wrapped, and neither are buffers under a key that
/// is no AES key: nothing changes then.
pub proof fn law_nothing_to_wrap_is_refused<
    K: Fn(&EncryptionKey) -> IovKey,
    S: Fn(&EncryptionKey, u32, &Vec<u8>) -> Result<Vec<u8>, Error>,
    T: Fn(&EncryptionKey, u32, &Vec<u8>, &Vec<u8>) -> Result<Vec<u8>, Error>,
    H: Fn(&EncryptionKey, u32, &Vec<u8>) -> Result<Vec<u8>, Error>,
    M: Fn(&EncryptionKey, u32, &Vec<u8>) -> Result<Vec<u8>, Error>,
>(
    c: GssContext,
    d: GssContext,
    conf: bool,
    v: Seq<IovBuf>,
    w: Seq<IovBuf>,
    kind: K,
    seal: S,
    seal_with: T,
    integrity: H,
    mac: M,
    r: Result<(), Error>,
)
    requires
        wrap_iov_result(c, d, conf, v, w, kind, seal, seal_with, integrity, mac, r),
    ensures
        !has_kind(v, IovType::Data) ==> r is Err && d == c && w == v,
        (forall|k: IovKey| #[trigger] call_ensures(kind, (&c.sending_key(),), k) ==> !k.aes) ==> r
            is Err && d == c && w == v,
{
}

} // verus!
