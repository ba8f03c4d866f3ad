//! Per-message protection of a context: checksum tokens, wrap tokens, and
//! what stands between them and the crypto layer.

use crate::bytes::{append, be64, copy, copy_range, from_be64, get_be64, lemma_be64_round_trip};
use crate::gss::context::{seq_step, GssContext};
use crate::gss::error::{inner, inner_error, Error};
use crate::gss::oid::{message, message_token};
use crate::gss::spnego::{parse_neg_resp_mic, resp_mic};
use crate::gss::wrap::{
    by_acceptor, check_direction, checksum_header, ends_in_header, lemma_token_flags, rfc4121_ckhdr,
    seal_input, seal_token, sealed_message, sealed_plain, sealed_token, sign_input, sign_token,
    signed_input, signed_split, signed_token, token_flags, with_subkey, WrapToken,
};
use crate::msg::EncryptionKey;
use vstd::prelude::*;

verus! {

/// Token id of a checksum token.
pub const TOK_MIC: [u8; 2] = [0x04, 0x04];

/// What the crypto layer says of a checksum.
#[derive(Clone, Copy, Debug, PartialEq, Eq, Structural)]
pub enum CksumVerdict {
    /// It is right.
    Good,
    /// It has the wrong length.
    BadSize,
    /// It is wrong, or could not be computed.
    Bad,
}

/// What a checksum's verdict comes to.
pub open spec fn cksum_result(v: CksumVerdict) -> Result<(), Error> {
    match v {
        CksumVerdict::Good => Ok(()),
        CksumVerdict::BadSize => Err(Error::Truncated),
        CksumVerdict::Bad => Err(Error::Integrity),
    }
}

/// What a checksum's verdict comes to.
pub fn map_gss_cksum(v: CksumVerdict) -> (r: Result<(), Error>)
    ensures
        r == cksum_result(v),
{
    match v {
        CksumVerdict::Good => Ok(()),
        CksumVerdict::BadSize => Err(Error::Truncated),
        CksumVerdict::Bad => Err(Error::Integrity),
    }
}

/// A checksum token taken apart.
#[derive(Clone, Debug, PartialEq, Eq)]
pub struct MicToken {
    /// Flags.
    pub flags: u8,
    /// Sequence number.
    pub seq: u64,
    /// The checksum.
    pub mac: Vec<u8>,
}

/// Whether `m` is a checksum token with a good header.
pub open spec fn mic_shape(m: Seq<u8>) -> bool {
    &&& m.len() >= 16
    &&& m[0] == TOK_MIC@[0]
    &&& m[1] == TOK_MIC@[1]
    &&& m[3] == 0xff
    &&& m[4] == 0xff
    &&& m[5] == 0xff
    &&& m[6] == 0xff
    &&& m[7] == 0xff
}

/// What taking apart a checksum token brings.
pub open spec fn mic_token_result(
    token: Seq<u8>,
    initiator: bool,
    r: Result<MicToken, Error>,
) -> bool {
    match message(token) {
        None => r matches Err(e) && e == Error::Truncated,
        Some(m) => if !mic_shape(m) {
            r matches Err(e) && e == Error::Truncated
        } else if by_acceptor(m[2]) != initiator {
            r matches Err(e) && e == Error::Integrity
        } else {
            r matches Ok(t) && t.flags == m[2] && t.seq == from_be64(m, 8) && t.mac@ == m.skip(16)
        },
    }
}

/// Takes a checksum token apart.
pub fn open_mic_token(token: &[u8], initiator: bool) -> (r: Result<MicToken, Error>)
    ensures
        mic_token_result(token@, initiator, r),
{
    let owned = match message_token(token) {
        Err(e) => {
            return Err(e);
        },
        Ok(v) => v,
    };
    let m = owned.as_slice();
    if m.len() < 16 || m[0] != TOK_MIC[0] || m[1] != TOK_MIC[1] {
        return Err(Error::Truncated);
    }
    if m[3] != 0xff || m[4] != 0xff || m[5] != 0xff || m[6] != 0xff || m[7] != 0xff {
        return Err(Error::Truncated);
    }
    match check_direction(m[2], initiator) {
        Err(e) => {
            return Err(e);
        },
        Ok(()) => {},
    }
    let mac = copy_range(m, 16, m.len());
    proof {
        assert(mac@ =~= m@.skip(16));
    }
    Ok(MicToken { flags: m[2], seq: get_be64(m, 8), mac })
}

/// What a checksum token's checksum covers.
pub open spec fn mic_input(data: Seq<u8>, flags: u8, seq: u64) -> Seq<u8> {
    data + checksum_header(TOK_MIC@, flags, seq, true)
}

/// Makes what a checksum token's checksum covers.
pub fn mic_octets(data: &[u8], flags: u8, seq: u64) -> (r: Vec<u8>)
    ensures
        r@ == mic_input(data@, flags, seq),
{
    let mut out = copy(data);
    let h = rfc4121_ckhdr(TOK_MIC, flags, seq, true);
    append(&mut out, h.as_slice());
    out
}

/// A checksum token.
pub open spec fn mic_token(mac: Seq<u8>, flags: u8, seq: u64) -> Seq<u8> {
    checksum_header(TOK_MIC@, flags, seq, true) + mac
}

/// What one side signs the other takes apart into the same checksum over the
/// same octets.
pub proof fn law_mic_round_trip(
    mac: Seq<u8>,
    initiator: bool,
    seq: u64,
    r: Result<MicToken, Error>,
)
    requires
        mic_token_result(
            mic_token(mac, token_flags(initiator, false, false), seq),
            !initiator,
            r,
        ),
    ensures
        r matches Ok(t) && t.mac@ == mac && t.seq == seq && t.flags == token_flags(
            initiator,
            false,
            false,
        ),
{
    let flags = token_flags(initiator, false, false);
    let tok = mic_token(mac, flags, seq);
    lemma_be64_round_trip(seq);
    assert(tok.len() == 16 + mac.len());
    assert(tok.subrange(8, 16) =~= be64(seq));
    assert forall|i: int| 0 <= i < 8 implies tok[8 + i] == #[trigger] be64(seq)[i] by {
        assert(tok.subrange(8, 16)[i] == tok[8 + i]);
    }
    assert(tok[8] == be64(seq)[0] && tok[9] == be64(seq)[1] && tok[10] == be64(seq)[2] && tok[11]
        == be64(seq)[3] && tok[12] == be64(seq)[4] && tok[13] == be64(seq)[5] && tok[14] == be64(
        seq,
    )[6] && tok[15] == be64(seq)[7]);
    assert(tok[0] == 0x04 && tok[1] == 0x04 && tok[2] == flags);
    assert(tok.skip(16) =~= mac);
}

impl GssContext {
    /// The key that a token with these flags is under.
    pub open spec fn key_for(&self, flags: u8) -> Option<EncryptionKey> {
        if with_subkey(flags) {
            self.acceptor_subkey
        } else {
            Some(self.session)
        }
    }

    /// The key that a received token is under; a subkey that never came is
    /// refused.
    pub fn recv_key(&self, flags: u8) -> (r: Result<&EncryptionKey, Error>)
        ensures
            match self.key_for(flags) {
                Some(k) => r matches Ok(x) && *x == k,
                None => r matches Err(e) && inner_error(e, "gss acceptor subkey"@),
            },
    {
        if flags / 4 % 2 == 1 {
            match &self.acceptor_subkey {
                Some(k) => Ok(k),
                None => Err(inner("gss acceptor subkey")),
            }
        } else {
            Ok(&self.session)
        }
    }

    /// The key that sealed tokens are sent under: the acceptor's subkey where
    /// there is one. The flag says which.
    pub fn send_key(&self) -> (r: (&EncryptionKey, bool))
        ensures
            r.1 == self.acceptor_subkey is Some,
            *r.0 == (match self.acceptor_subkey {
                Some(k) => k,
                None => self.session,
            }),
    {
        match &self.acceptor_subkey {
            Some(k) => (k, true),
            None => (&self.session, false),
        }
    }

    /// The flags of a sealed token from this side.
    pub open spec fn seal_flags(&self) -> u8 {
        token_flags(self.initiator, true, self.acceptor_subkey is Some)
    }

    /// What is to be encrypted for a sealed token.
    pub fn wrap_input(&self, plaintext: &[u8], ec: u16) -> (r: Vec<u8>)
        ensures
            r@ == sealed_plain(plaintext@, self.seal_flags(), ec, self.send_seq),
    {
        seal_input(plaintext, self.initiator, self.acceptor_subkey.is_some(), ec, self.send_seq)
    }

    /// The sealed token for encrypted octets, with padding and rotation as
    /// given; the sequence number goes up.
    pub fn sealed_out(&mut self, cipher: &[u8], ec: u16, rrc: u16) -> (r: Vec<u8>)
        ensures
            r@ == sealed_token(cipher@, old(self).seal_flags(), ec, rrc, old(self).send_seq),
            *final(self) == (GssContext {
                send_seq: old(self).send_seq.wrapping_add(1),
                ..*old(self)
            }),
    {
        let tok = seal_token(
            cipher,
            self.initiator,
            self.acceptor_subkey.is_some(),
            ec,
            rrc,
            self.send_seq,
        );
        self.send_seq = self.send_seq.wrapping_add(1);
        tok
    }

    /// What is to be signed for a token that is not sealed.
    pub fn wrap_integ_input(&self, plaintext: &[u8]) -> (r: Vec<u8>)
        ensures
            r@ == signed_input(
                plaintext@,
                token_flags(self.initiator, false, false),
                self.send_seq,
            ),
    {
        sign_input(plaintext, plain_flags(self.initiator), self.send_seq)
    }

    /// The token that is not sealed, with its checksum; the sequence number
    /// goes up.
    pub fn signed_out(&mut self, plaintext: &[u8], mac: &[u8]) -> (r: Result<Vec<u8>, Error>)
        ensures
            match r {
                Ok(v) => mac@.len() <= 0xffff && v@ == signed_token(
                    plaintext@,
                    mac@,
                    token_flags(old(self).initiator, false, false),
                    old(self).send_seq,
                ) && *final(self) == (GssContext {
                    send_seq: old(self).send_seq.wrapping_add(1),
                    ..*old(self)
                }),
                Err(e) => mac@.len() > 0xffff && e == Error::Truncated && *final(self) == *old(
                    self,
                ),
            },
    {
        match sign_token(plaintext, mac, plain_flags(self.initiator), self.send_seq) {
            Err(e) => Err(e),
            Ok(v) => {
                self.send_seq = self.send_seq.wrapping_add(1);
                Ok(v)
            },
        }
    }

    /// The message of a sealed token. `plain` is what came of decrypting it;
    /// its sequence number is received last.
    pub fn unwrap_sealed(&mut self, t: &WrapToken, plain: Result<Vec<u8>, Error>) -> (r: Result<
        Vec<u8>,
        Error,
    >)
        requires
            old(self).wf(),
        ensures
            final(self).wf(),
            old(self).same_but_window(*final(self)),
            match plain {
                Err(e) => r matches Err(x) && x == e && *final(self) == *old(self),
                Ok(p) => if !ends_in_header(p@, t.flags, t.ec, t.seq) {
                    r matches Err(x) && x == Error::Truncated && *final(self) == *old(self)
                } else {
                    match seq_step(old(self).seq_state(), t.seq) {
                        None => r matches Err(x) && x == Error::Sequence && *final(self) == *old(
                            self,
                        ),
                        Some(st) => r matches Ok(v) && v@ == p@.take(p@.len() - t.ec - 16)
                            && final(self).seq_state() == st,
                    }
                },
            },
    {
        let plain = match plain {
            Err(e) => {
                return Err(e);
            },
            Ok(p) => p,
        };
        let msg = match sealed_message(t, plain.as_slice()) {
            Err(e) => {
                return Err(e);
            },
            Ok(m) => m,
        };
        match self.accept_seq(t.seq) {
            Err(e) => Err(e),
            Ok(()) => Ok(msg),
        }
    }

    /// The message of a token that is not sealed. `size` is the length of the
    /// key's checksums, where it has any; its sequence number is received
    /// last.
    pub fn unwrap_signed(
        &mut self,
        t: &WrapToken,
        size: Option<usize>,
        verdict: CksumVerdict,
    ) -> (r: Result<Vec<u8>, Error>)
        requires
            old(self).wf(),
        ensures
            final(self).wf(),
            old(self).same_but_window(*final(self)),
            if size is None || size->0 > t.payload@.len() || t.ec != size->0 {
                r matches Err(x) && x == Error::Truncated && *final(self) == *old(self)
            } else if cksum_result(verdict) is Err {
                r matches Err(x) && x == cksum_result(verdict)->Err_0 && *final(self) == *old(self)
            } else {
                match seq_step(old(self).seq_state(), t.seq) {
                    None => r matches Err(x) && x == Error::Sequence && *final(self) == *old(self),
                    Some(st) => r matches Ok(v) && v@ == t.payload@.take(
                        t.payload@.len() - size->0,
                    ) && final(self).seq_state() == st,
                }
            },
    {
        let size: usize = match size {
            Some(n) => n,
            None => {
                return Err(Error::Truncated);
            },
        };
        let split: usize = match signed_split(t, size) {
            Err(e) => {
                return Err(e);
            },
            Ok(n) => n,
        };
        match map_gss_cksum(verdict) {
            Err(e) => {
                return Err(e);
            },
            Ok(()) => {},
        }
        match self.accept_seq(t.seq) {
            Err(e) => Err(e),
            Ok(()) => {
                let len: usize = t.payload.len();
                let msg = copy_range(t.payload.as_slice(), 0, split);
                proof {
                    assert(split == len - size);
                    assert(msg@ =~= t.payload@.take(split as int));
                }
                Ok(msg)
            },
        }
    }

    /// What is to be signed for a checksum token.
    pub fn get_mic_input(&self, data: &[u8]) -> (r: Vec<u8>)
        ensures
            r@ == mic_input(data@, token_flags(self.initiator, false, false), self.send_seq),
    {
        mic_octets(data, plain_flags(self.initiator), self.send_seq)
    }

    /// The checksum token for a checksum; the sequence number goes up.
    pub fn get_mic(&mut self, mac: &[u8]) -> (r: Vec<u8>)
        ensures
            r@ == mic_token(
                mac@,
                token_flags(old(self).initiator, false, false),
                old(self).send_seq,
            ),
            *final(self) == (GssContext {
                send_seq: old(self).send_seq.wrapping_add(1),
                ..*old(self)
            }),
    {
        let mut tok = rfc4121_ckhdr(TOK_MIC, plain_flags(self.initiator), self.send_seq, true);
        append(&mut tok, mac);
        self.send_seq = self.send_seq.wrapping_add(1);
        tok
    }

    /// Takes a received checksum token apart, once the key that it is under
    /// is there.
    pub fn verify_mic_start(&self, token: &[u8]) -> (r: Result<MicToken, Error>)
        ensures
            exists|t: Result<MicToken, Error>| #[trigger]
                mic_token_result(token@, self.initiator, t) && (match t {
                    Err(e) => r matches Err(x) && x == e,
                    Ok(w) => match self.key_for(w.flags) {
                        Some(_) => r == t,
                        None => r matches Err(x) && inner_error(x, "gss acceptor subkey"@),
                    },
                }),
    {
        let t = open_mic_token(token, self.initiator);
        proof {
            assert(mic_token_result(token@, self.initiator, t));
        }
        let w = match t {
            Err(e) => {
                return Err(e);
            },
            Ok(w) => w,
        };
        match self.recv_key(w.flags) {
            Err(e) => {
                return Err(e);
            },
            Ok(_) => {},
        }
        Ok(w)
    }

    /// Ends the verification of a checksum token: its sequence number is
    /// received where the checksum is right.
    pub fn verify_mic(&mut self, t: &MicToken, verdict: CksumVerdict) -> (r: Result<(), Error>)
        requires
            old(self).wf(),
        ensures
            final(self).wf(),
            old(self).same_but_window(*final(self)),
            match cksum_result(verdict) {
                Err(e) => r == Err::<(), Error>(e) && *final(self) == *old(self),
                Ok(()) => match seq_step(old(self).seq_state(), t.seq) {
                    None => r == Err::<(), Error>(Error::Sequence) && *final(self) == *old(self),
                    Some(st) => r is Ok && final(self).seq_state() == st,
                },
            },
    {
        match map_gss_cksum(verdict) {
            Err(e) => Err(e),
            Ok(()) => self.accept_seq(t.seq),
        }
    }

    /// The checksum token over the negotiated list in a later response, taken
    /// out of it; refused where nothing was negotiated.
    pub fn spnego_mic_token(&self, token: &[u8]) -> (r: Result<Vec<u8>, Error>)
        ensures
            match resp_mic(token@) {
                Some(s) => if self.spnego_mech_list is Some {
                    r matches Ok(v) && v@ == s
                } else {
                    r matches Err(e) && e == Error::Truncated
                },
                None => r matches Err(e) && e == Error::Truncated,
            },
    {
        if self.spnego_mech_list.is_none() {
            return Err(Error::Truncated);
        }
        parse_neg_resp_mic(token)
    }
}

/// The flags of a token that is not sealed.
fn plain_flags(initiator: bool) -> (r: u8)
    ensures
        r == token_flags(initiator, false, false),
{
    if initiator {
        0
    } else {
        1
    }
}

/// A checksum is taken where it is right; one of a wrong length is refused as
/// cut short, and any other as wrong.
pub proof fn law_only_a_right_checksum_is_taken(v: CksumVerdict)
    ensures
        cksum_result(v) is Ok <==> v == CksumVerdict::Good,
        cksum_result(v) == Err::<(), Error>(Error::Truncated) <==> v == CksumVerdict::BadSize,
        cksum_result(v) == Err::<(), Error>(Error::Integrity) <==> v == CksumVerdict::Bad,
{
}

/// A checksum token that comes back to the side that sent it is refused.
pub proof fn law_own_mic_is_refused(
    mac: Seq<u8>,
    initiator: bool,
    seq: u64,
    r: Result<MicToken, Error>,
)
    requires
        mic_token_result(mic_token(mac, token_flags(initiator, false, false), seq), initiator, r),
    ensures
        r == Err::<MicToken, Error>(Error::Integrity),
{
    lemma_token_flags(initiator, false, false);
    let tok = mic_token(mac, token_flags(initiator, false, false), seq);
    assert(tok[0] == 0x04);
}

/// A token that is too short for a header, or does not start as a checksum
/// token does, is refused.
pub proof fn law_other_mic_is_refused(
    token: Seq<u8>,
    initiator: bool,
    r: Result<MicToken, Error>,
    i: int,
)
    requires
        mic_token_result(token, initiator, r),
        token.len() == 0 || token[0] != 0x60,
        token.len() < 16 || token[0] != 4 || token[1] != 4 || (3 <= i < 8 && token[i] != 0xff),
    ensures
        r == Err::<MicToken, Error>(Error::Truncated),
{
}

/// A token is under the acceptor's subkey where it says so and the context has
/// one, and under the session key where it does not say so.
pub proof fn law_flags_choose_the_key(c: GssContext, initiator: bool, seal: bool)
    ensures
        c.key_for(token_flags(initiator, seal, true)) == c.acceptor_subkey,
        c.key_for(token_flags(initiator, seal, false)) == Some(c.session),
{
    lemma_token_flags(initiator, seal, true);
    lemma_token_flags(initiator, seal, false);
}

} // verus!
