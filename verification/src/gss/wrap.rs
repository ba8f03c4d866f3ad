//! Per-message wrap tokens: header, padding and rotation.

use crate::bytes::{
    append, be16, be32, be64, copy, copy_range, from_be16, from_be32, from_be64, get_be16, get_be64,
    lemma_be16_round_trip, lemma_be64_round_trip, put_be16, put_be64,
};
use crate::gss::error::Error;
use crate::gss::oid::{message, message_token};
use vstd::prelude::*;
use vstd::slice::slice_subrange;

verus! {

/// Token id of a wrap token.
pub const TOK_WRAP: [u8; 2] = [0x05, 0x04];

/// Flag: sent by the acceptor.
pub const FLAG_SENT_BY_ACCEPTOR: u8 = 1;

/// Flag: encrypted.
pub const FLAG_SEALED: u8 = 2;

/// Flag: under the acceptor's subkey.
pub const FLAG_ACCEPTOR_SUBKEY: u8 = 4;

/// Length of a token header.
pub const HEADER_LEN: usize = 16;

/// Length of the confounder that stands before encrypted data.
pub const AES_CONFOUNDER: usize = 16;

/// The token says that the acceptor sent it.
pub open spec fn by_acceptor(flags: u8) -> bool {
    flags % 2 == 1
}

/// The token says that it is encrypted.
pub open spec fn sealed(flags: u8) -> bool {
    flags / 2 % 2 == 1
}

/// The token says that it is under the acceptor's subkey.
pub open spec fn with_subkey(flags: u8) -> bool {
    flags / 4 % 2 == 1
}

/// The flags of a token.
pub open spec fn token_flags(initiator: bool, seal: bool, subkey: bool) -> u8 {
    let a: u8 = if initiator {
        0
    } else {
        FLAG_SENT_BY_ACCEPTOR
    };
    let b: u8 = if seal {
        FLAG_SEALED
    } else {
        0
    };
    let c: u8 = if subkey {
        FLAG_ACCEPTOR_SUBKEY
    } else {
        0
    };
    (a + b + c) as u8
}

/// Key usages of the two directions.
pub const KU_ACCEPTOR_SEAL: u32 = 22;

/// Key usage of the acceptor's checksums.
pub const KU_ACCEPTOR_SIGN: u32 = 23;

/// Key usage of the initiator's encryption.
pub const KU_INITIATOR_SEAL: u32 = 24;

/// Key usage of the initiator's checksums.
pub const KU_INITIATOR_SIGN: u32 = 25;

/// Whether two checksums are the same, with as much work whatever they hold.
pub fn mac_eq(a: &[u8], b: &[u8]) -> (r: bool)
    ensures
        r == (a@ == b@),
{
    if a.len() != b.len() {
        return false;
    }
    let mut acc: u8 = 0;
    let mut i: usize = 0;
    proof {
        assert(a@.take(0) =~= b@.take(0));
    }
    while i < a.len()
        invariant
            i <= a.len(),
            a@.len() == b@.len(),
            acc == 0 <==> a@.take(i as int) == b@.take(i as int),
        decreases a.len() - i,
    {
        let x: u8 = a[i];
        let y: u8 = b[i];
        proof {
            assert((acc | (x ^ y)) == 0 <==> acc == 0 && x == y) by (bit_vector);
            assert(a@.take(i + 1) =~= a@.take(i as int).push(x));
            assert(b@.take(i + 1) =~= b@.take(i as int).push(y));
            if a@.take(i + 1) == b@.take(i + 1) {
                assert(a@.take(i + 1).drop_last() =~= a@.take(i as int));
                assert(b@.take(i + 1).drop_last() =~= b@.take(i as int));
                assert(a@.take(i + 1).last() == x);
                assert(b@.take(i + 1).last() == y);
            }
        }
        acc = acc | (x ^ y);
        i = i + 1;
    }
    proof {
        assert(a@.take(a@.len() as int) =~= a@);
        assert(b@.take(b@.len() as int) =~= b@);
    }
    acc == 0
}

/// Key usage of wrap tokens.
pub fn seal_usage(initiator: bool) -> (r: u32)
    ensures
        r == (if initiator {
            KU_INITIATOR_SEAL
        } else {
            KU_ACCEPTOR_SEAL
        }),
{
    if initiator {
        KU_INITIATOR_SEAL
    } else {
        KU_ACCEPTOR_SEAL
    }
}

/// Key usage of checksum tokens.
pub fn sign_usage(initiator: bool) -> (r: u32)
    ensures
        r == (if initiator {
            KU_INITIATOR_SIGN
        } else {
            KU_ACCEPTOR_SIGN
        }),
{
    if initiator {
        KU_INITIATOR_SIGN
    } else {
        KU_ACCEPTOR_SIGN
    }
}

/// The header of a wrap token.
pub open spec fn header(flags: u8, ec: u16, rrc: u16, seq: u64) -> Seq<u8> {
    TOK_WRAP@ + seq![flags, 0xffu8] + be16(ec) + be16(rrc) + be64(seq)
}

/// Makes the header of a wrap token.
pub fn wrap_header(
    initiator: bool,
    seal: bool,
    subkey: bool,
    ec: u16,
    rrc: u16,
    seq: u64,
) -> (r: Vec<u8>)
    ensures
        r@ == header(token_flags(initiator, seal, subkey), ec, rrc, seq),
        r@.len() == 16,
{
    let mut flags: u8 = 0;
    if !initiator {
        flags = flags + FLAG_SENT_BY_ACCEPTOR;
    }
    if seal {
        flags = flags + FLAG_SEALED;
    }
    if subkey {
        flags = flags + FLAG_ACCEPTOR_SUBKEY;
    }
    header_of(flags, ec, rrc, seq)
}

/// Makes the header of a wrap token with these flags.
pub fn header_of(flags: u8, ec: u16, rrc: u16, seq: u64) -> (r: Vec<u8>)
    ensures
        r@ == header(flags, ec, rrc, seq),
        r@.len() == 16,
{
    let mut out: Vec<u8> = Vec::new();
    append(&mut out, &TOK_WRAP);
    out.push(flags);
    out.push(0xff);
    put_be16(&mut out, ec);
    put_be16(&mut out, rrc);
    put_be64(&mut out, seq);
    proof {
        assert(out@ =~= header(flags, ec, rrc, seq));
    }
    out
}

/// The octets that a checksum covers besides the data: the header with
/// padding and rotation blanked, with zeros or, in a checksum token, ones.
pub open spec fn checksum_header(toktype: Seq<u8>, flags: u8, seq: u64, mic: bool) -> Seq<u8> {
    let fill: u8 = if mic {
        0xff
    } else {
        0
    };
    toktype + seq![flags, 0xffu8, fill, fill, fill, fill] + be64(seq)
}

/// Makes the octets that a checksum covers besides the data.
pub fn rfc4121_ckhdr(toktype: [u8; 2], flags: u8, seq: u64, mic: bool) -> (r: Vec<u8>)
    ensures
        r@ == checksum_header(toktype@, flags, seq, mic),
        r@.len() == 16,
{
    let fill: u8 = if mic {
        0xff
    } else {
        0
    };
    let mut out: Vec<u8> = Vec::new();
    append(&mut out, &toktype);
    out.push(flags);
    out.push(0xff);
    out.push(fill);
    out.push(fill);
    out.push(fill);
    out.push(fill);
    put_be64(&mut out, seq);
    proof {
        assert(out@ =~= checksum_header(toktype@, flags, seq, mic));
    }
    out
}

/// Refuses a token from one's own side.
pub fn check_direction(flags: u8, initiator: bool) -> (r: Result<(), Error>)
    ensures
        r == (if by_acceptor(flags) == initiator {
            Ok(())
        } else {
            Err(Error::Integrity)
        }),
{
    if (flags % 2 == 1) == initiator {
        Ok(())
    } else {
        Err(Error::Integrity)
    }
}

/// `s` rotated right by `n` places.
pub open spec fn rotated_right(s: Seq<u8>, n: int) -> Seq<u8> {
    if s.len() == 0 {
        s
    } else {
        let k = n % (s.len() as int);
        s.skip(s.len() - k) + s.take(s.len() - k)
    }
}

/// `s` rotated left by `n` places.
pub open spec fn rotated_left(s: Seq<u8>, n: int) -> Seq<u8> {
    if s.len() == 0 {
        s
    } else {
        let k = n % (s.len() as int);
        s.skip(k) + s.take(k)
    }
}

/// Rotating left and then right by the same amount changes nothing, and so
/// does rotating right and then left.
pub proof fn law_rotations_are_inverse(s: Seq<u8>, n: int)
    requires
        n >= 0,
    ensures
        rotated_right(rotated_left(s, n), n) == s,
        rotated_left(rotated_right(s, n), n) == s,
        rotated_left(s, n).len() == s.len(),
        rotated_right(s, n).len() == s.len(),
{
    if s.len() > 0 {
        let k = n % (s.len() as int);
        let l = rotated_left(s, n);
        assert(l.len() == s.len());
        assert(l.skip(l.len() - k) =~= s.take(k));
        assert(l.take(l.len() - k) =~= s.skip(k));
        assert(rotated_right(l, n) =~= s);
        let r = rotated_right(s, n);
        assert(r.len() == s.len());
        assert(r.skip(k) =~= s.take(s.len() - k));
        assert(r.take(k) =~= s.skip(s.len() - k));
        assert(rotated_left(r, n) =~= s);
    }
}

/// Rotates right.
pub fn rotate_rrc(cipher: &[u8], rrc: u16) -> (r: Vec<u8>)
    ensures
        r@ == rotated_right(cipher@, rrc as int),
{
    let len: usize = cipher.len();
    if len == 0 {
        return copy(cipher);
    }
    let n: usize = (rrc as usize) % len;
    let split: usize = len - n;
    let mut out = copy_range(cipher, split, len);
    append(&mut out, slice_subrange(cipher, 0, split));
    proof {
        assert(out@ =~= rotated_right(cipher@, rrc as int));
    }
    out
}

/// Rotates left.
pub fn rotate_left(cipher: &[u8], rrc: u16) -> (r: Vec<u8>)
    ensures
        r@ == rotated_left(cipher@, rrc as int),
{
    let len: usize = cipher.len();
    if len == 0 {
        return copy(cipher);
    }
    let n: usize = (rrc as usize) % len;
    let mut out = copy_range(cipher, n, len);
    append(&mut out, slice_subrange(cipher, 0, n));
    proof {
        assert(out@ =~= rotated_left(cipher@, rrc as int));
    }
    out
}

/// `n` octets of padding.
pub open spec fn filler(n: nat) -> Seq<u8> {
    Seq::new(n, |i: int| 0xffu8)
}

/// What is encrypted in a sealed token: the data, padding, and the header as
/// it stands before rotation.
pub open spec fn sealed_plain(data: Seq<u8>, flags: u8, ec: u16, seq: u64) -> Seq<u8> {
    data + filler(ec as nat) + header(flags, ec, 0, seq)
}

/// Makes what is encrypted in a sealed token.
pub fn seal_input(
    data: &[u8],
    initiator: bool,
    subkey: bool,
    ec: u16,
    seq: u64,
) -> (r: Vec<u8>)
    ensures
        r@ == sealed_plain(data@, token_flags(initiator, true, subkey), ec, seq),
{
    let mut out = copy(data);
    let mut i: u16 = 0;
    while i < ec
        invariant
            i <= ec,
            out@ == data@ + filler(i as nat),
        decreases ec - i,
    {
        out.push(0xff);
        i = i + 1;
        proof {
            assert(out@ =~= data@ + filler(i as nat));
        }
    }
    let h = wrap_header(initiator, true, subkey, ec, 0, seq);
    append(&mut out, h.as_slice());
    out
}

/// A sealed token: the header, and the ciphertext rotated left.
pub open spec fn sealed_token(cipher: Seq<u8>, flags: u8, ec: u16, rrc: u16, seq: u64) -> Seq<u8> {
    header(flags, ec, rrc, seq) + rotated_left(cipher, rrc as int)
}

/// Makes a sealed token.
pub fn seal_token(
    cipher: &[u8],
    initiator: bool,
    subkey: bool,
    ec: u16,
    rrc: u16,
    seq: u64,
) -> (r: Vec<u8>)
    ensures
        r@ == sealed_token(cipher@, token_flags(initiator, true, subkey), ec, rrc, seq),
{
    let mut out = wrap_header(initiator, true, subkey, ec, rrc, seq);
    let body = rotate_left(cipher, rrc);
    append(&mut out, body.as_slice());
    out
}

/// What the checksum of a token that is not sealed covers.
pub open spec fn signed_input(data: Seq<u8>, flags: u8, seq: u64) -> Seq<u8> {
    data + checksum_header(TOK_WRAP@, flags, seq, false)
}

/// Makes what the checksum of a token that is not sealed covers.
pub fn sign_input(data: &[u8], flags: u8, seq: u64) -> (r: Vec<u8>)
    ensures
        r@ == signed_input(data@, flags, seq),
{
    let mut out = copy(data);
    let h = rfc4121_ckhdr(TOK_WRAP, flags, seq, false);
    append(&mut out, h.as_slice());
    out
}

/// A token that is not sealed: the header with the checksum's length, the
/// data, and the checksum.
pub open spec fn signed_token(data: Seq<u8>, mac: Seq<u8>, flags: u8, seq: u64) -> Seq<u8> {
    header(flags, mac.len() as u16, 0, seq) + data + mac
}

/// Makes a token that is not sealed. A checksum too long for its length field
/// is refused.
pub fn sign_token(data: &[u8], mac: &[u8], flags: u8, seq: u64) -> (r: Result<Vec<u8>, Error>)
    ensures
        match r {
            Ok(v) => mac@.len() <= 0xffff && v@ == signed_token(data@, mac@, flags, seq),
            Err(e) => mac@.len() > 0xffff && e == Error::Truncated,
        },
{
    if mac.len() > 0xffff {
        return Err(Error::Truncated);
    }
    let mut out = header_of(flags, mac.len() as u16, 0, seq);
    append(&mut out, data);
    append(&mut out, mac);
    Ok(out)
}

/// A wrap token taken apart, its rotation undone.
#[derive(Clone, Debug, PartialEq, Eq)]
pub struct WrapToken {
    /// Flags.
    pub flags: u8,
    /// Length of padding or checksum.
    pub ec: u16,
    /// Sequence number.
    pub seq: u64,
    /// What stands behind the header.
    pub payload: Vec<u8>,
}

/// Whether `m` is a wrap token with a good header.
pub open spec fn wrap_shape(m: Seq<u8>) -> bool {
    m.len() >= 16 && m[0] == TOK_WRAP@[0] && m[1] == TOK_WRAP@[1] && m[3] == 0xff
}

/// What taking apart a token brings: the frame and the header are judged
/// first, then the direction.
pub open spec fn wrap_token_result(
    token: Seq<u8>,
    initiator: bool,
    r: Result<WrapToken, Error>,
) -> bool {
    match message(token) {
        None => r matches Err(e) && e == Error::Truncated,
        Some(m) => if !wrap_shape(m) {
            r matches Err(e) && e == Error::Truncated
        } else if by_acceptor(m[2]) != initiator {
            r matches Err(e) && e == Error::Integrity
        } else {
            r matches Ok(t) && {
                &&& t.flags == m[2]
                &&& t.ec == from_be16(m, 4)
                &&& t.seq == from_be64(m, 8)
                &&& t.payload@ == rotated_right(m.skip(16), from_be16(m, 6) as int)
            }
        },
    }
}

/// Takes a wrap token apart: a bad header or the wrong direction is refused
/// before anything is decrypted, and the rotation is undone.
pub fn open_wrap_token(token: &[u8], initiator: bool) -> (r: Result<WrapToken, Error>)
    ensures
        wrap_token_result(token@, initiator, r),
{
    let owned = match message_token(token) {
        Err(e) => {
            return Err(e);
        },
        Ok(v) => v,
    };
    let m = owned.as_slice();
    if m.len() < 16 || m[0] != TOK_WRAP[0] || m[1] != TOK_WRAP[1] {
        return Err(Error::Truncated);
    }
    if m[3] != 0xff {
        return Err(Error::Truncated);
    }
    match check_direction(m[2], initiator) {
        Err(e) => {
            return Err(e);
        },
        Ok(()) => {},
    }
    let ec: u16 = get_be16(m, 4);
    let rrc: u16 = get_be16(m, 6);
    let seq: u64 = get_be64(m, 8);
    let tail = slice_subrange(m, 16, m.len());
    proof {
        assert(tail@ =~= m@.skip(16));
    }
    let payload = rotate_rrc(tail, rrc);
    Ok(WrapToken { flags: m[2], ec, seq, payload })
}

/// Where the checksum of a token that is not sealed begins, `size` being the
/// length of such checksums: the header must say that length.
pub fn signed_split(t: &WrapToken, size: usize) -> (r: Result<usize, Error>)
    ensures
        r == (if size > t.payload@.len() || t.ec != size {
            Err::<usize, Error>(Error::Truncated)
        } else {
            Ok((t.payload@.len() - size) as usize)
        }),
{
    if size > t.payload.len() || t.ec as usize != size {
        return Err(Error::Truncated);
    }
    Ok(t.payload.len() - size)
}

/// Whether decrypted octets end in the header that stands before them.
pub open spec fn ends_in_header(plain: Seq<u8>, flags: u8, ec: u16, seq: u64) -> bool {
    let at = plain.len() - 16;
    &&& plain.len() >= 16 + ec
    &&& plain[at] == TOK_WRAP@[0]
    &&& plain[at + 1] == TOK_WRAP@[1]
    &&& plain[at + 2] == flags
    &&& plain[at + 3] == 0xff
    &&& from_be16(plain, at + 4) == ec
    &&& from_be64(plain, at + 8) == seq
}

/// Whether decrypted octets end in the header that stands before them. The
/// rotation is not compared.
pub fn verify_enc_header(plain: &[u8], flags: u8, ec: u16, seq: u64) -> (r: bool)
    ensures
        r == ends_in_header(plain@, flags, ec, seq),
{
    if plain.len() < 16 || plain.len() - 16 < ec as usize {
        return false;
    }
    let at: usize = plain.len() - 16;
    plain[at] == TOK_WRAP[0] && plain[at + 1] == TOK_WRAP[1] && plain[at + 2] == flags && plain[at
        + 3] == 0xff && get_be16(plain, at + 4) == ec && get_be64(plain, at + 8) == seq
}

/// The message in decrypted octets: what stands before padding and header.
pub fn sealed_message(t: &WrapToken, plain: &[u8]) -> (r: Result<Vec<u8>, Error>)
    ensures
        if ends_in_header(plain@, t.flags, t.ec, t.seq) {
            r matches Ok(v) && v@ == plain@.take(plain@.len() - t.ec - 16)
        } else {
            r matches Err(e) && e == Error::Truncated
        },
{
    if !verify_enc_header(plain, t.flags, t.ec, t.seq) {
        return Err(Error::Truncated);
    }
    let n: usize = plain.len() - t.ec as usize - 16;
    proof {
        assert(plain@.subrange(0, n as int) =~= plain@.take(n as int));
    }
    Ok(copy_range(plain, 0, n))
}

/// The fields of a header read back as written, wherever it stands.
pub proof fn lemma_header_fields(pre: Seq<u8>, flags: u8, ec: u16, rrc: u16, seq: u64, post: Seq<u8>)
    ensures
        ({
            let s = pre + header(flags, ec, rrc, seq) + post;
            let at = pre.len() as int;
            &&& s.len() == pre.len() + 16 + post.len()
            &&& s[at] == TOK_WRAP@[0]
            &&& s[at + 1] == TOK_WRAP@[1]
            &&& s[at + 2] == flags
            &&& s[at + 3] == 0xff
            &&& from_be16(s, at + 4) == ec
            &&& from_be16(s, at + 6) == rrc
            &&& from_be64(s, at + 8) == seq
        }),
{
    let h = header(flags, ec, rrc, seq);
    let s = pre + h + post;
    let at = pre.len() as int;
    assert(h.len() == 16);
    assert forall|i: int| 0 <= i < 16 implies s[at + i] == #[trigger] h[i] by {}
    lemma_be16_round_trip(ec);
    lemma_be16_round_trip(rrc);
    lemma_be64_round_trip(seq);
    assert(h[0] == TOK_WRAP@[0]);
    assert(h[1] == TOK_WRAP@[1]);
    assert(h[2] == flags);
    assert(h[3] == 0xff);
    assert(h[4] == be16(ec)[0]);
    assert(h[5] == be16(ec)[1]);
    assert(h[6] == be16(rrc)[0]);
    assert(h[7] == be16(rrc)[1]);
    assert forall|i: int| 0 <= i < 8 implies h[8 + i] == #[trigger] be64(seq)[i] by {}
    assert(h[8] == be64(seq)[0]);
    assert(h[9] == be64(seq)[1]);
    assert(h[10] == be64(seq)[2]);
    assert(h[11] == be64(seq)[3]);
    assert(h[12] == be64(seq)[4]);
    assert(h[13] == be64(seq)[5]);
    assert(h[14] == be64(seq)[6]);
    assert(h[15] == be64(seq)[7]);
}

/// The flags of a token read back as they were set.
pub proof fn lemma_token_flags(initiator: bool, seal: bool, subkey: bool)
    ensures
        by_acceptor(token_flags(initiator, seal, subkey)) == !initiator,
        sealed(token_flags(initiator, seal, subkey)) == seal,
        with_subkey(token_flags(initiator, seal, subkey)) == subkey,
{
}

/// What is encrypted in a sealed token ends in its header, in front of which
/// stand padding and the data.
pub proof fn lemma_sealed_plain(data: Seq<u8>, flags: u8, ec: u16, seq: u64)
    ensures
        ends_in_header(sealed_plain(data, flags, ec, seq), flags, ec, seq),
        sealed_plain(data, flags, ec, seq).len() == data.len() + ec + 16,
        sealed_plain(data, flags, ec, seq).take(data.len() as int) == data,
{
    let plain = sealed_plain(data, flags, ec, seq);
    let pre = data + filler(ec as nat);
    lemma_header_fields(pre, flags, ec, 0, seq, Seq::empty());
    assert(pre + header(flags, ec, 0, seq) + Seq::<u8>::empty() =~= plain);
    assert(plain.take(data.len() as int) =~= data);
}

/// What one side seals the other side opens: with any padding and rotation
/// the token comes apart into the ciphertext that went in, and where that
/// decrypts to what was encrypted, the message is the data.
pub proof fn law_seal_round_trip(
    data: Seq<u8>,
    cipher: Seq<u8>,
    initiator: bool,
    subkey: bool,
    ec: u16,
    rrc: u16,
    seq: u64,
    r: Result<WrapToken, Error>,
)
    requires
        wrap_token_result(
            sealed_token(cipher, token_flags(initiator, true, subkey), ec, rrc, seq),
            !initiator,
            r,
        ),
    ensures
        r matches Ok(t) && {
            let plain = sealed_plain(data, token_flags(initiator, true, subkey), ec, seq);
            &&& t.payload@ == cipher
            &&& t.ec == ec
            &&& t.seq == seq
            &&& sealed(t.flags)
            &&& with_subkey(t.flags) == subkey
            &&& ends_in_header(plain, t.flags, t.ec, t.seq)
            &&& plain.take(plain.len() - t.ec - 16) == data
        },
{
    let flags = token_flags(initiator, true, subkey);
    lemma_token_flags(initiator, true, subkey);
    let body = rotated_left(cipher, rrc as int);
    let tok = sealed_token(cipher, flags, ec, rrc, seq);
    lemma_header_fields(Seq::empty(), flags, ec, rrc, seq, body);
    assert(Seq::<u8>::empty() + header(flags, ec, rrc, seq) + body =~= tok);
    assert(tok[0] == 0x05);
    assert(tok.skip(16) =~= body);
    law_rotations_are_inverse(cipher, rrc as int);
    lemma_sealed_plain(data, flags, ec, seq);
}

/// What one side signs the other side takes apart into the same data and the
/// same checksum, over the same octets.
pub proof fn law_sign_round_trip(
    data: Seq<u8>,
    mac: Seq<u8>,
    initiator: bool,
    subkey: bool,
    seq: u64,
    r: Result<WrapToken, Error>,
)
    requires
        mac.len() <= 0xffff,
        wrap_token_result(
            signed_token(data, mac, token_flags(initiator, false, subkey), seq),
            !initiator,
            r,
        ),
    ensures
        r matches Ok(t) && {
            &&& !sealed(t.flags)
            &&& t.ec == mac.len()
            &&& t.seq == seq
            &&& t.payload@.len() == data.len() + mac.len()
            &&& t.payload@.take(data.len() as int) == data
            &&& t.payload@.skip(data.len() as int) == mac
            &&& t.flags == token_flags(initiator, false, subkey)
        },
{
    let flags = token_flags(initiator, false, subkey);
    lemma_token_flags(initiator, false, subkey);
    let tok = signed_token(data, mac, flags, seq);
    let body = data + mac;
    lemma_header_fields(Seq::empty(), flags, mac.len() as u16, 0, seq, body);
    assert(Seq::<u8>::empty() + header(flags, mac.len() as u16, 0, seq) + body =~= tok);
    assert(tok[0] == 0x05);
    assert(tok.skip(16) =~= body);
    assert(rotated_right(body, 0) =~= body);
    assert(body.take(data.len() as int) =~= data);
    assert(body.skip(data.len() as int) =~= mac);
}

/// The flags of a token say which side sent it, whether it is sealed, and
/// whether it is under the acceptor's subkey.
pub proof fn law_token_flags_say_all(initiator: bool, seal: bool, subkey: bool)
    ensures
        by_acceptor(token_flags(initiator, seal, subkey)) == !initiator,
        sealed(token_flags(initiator, seal, subkey)) == seal,
        with_subkey(token_flags(initiator, seal, subkey)) == subkey,
{
    lemma_token_flags(initiator, seal, subkey);
}

/// A token that comes back to the side that sent it is refused.
pub proof fn law_own_token_is_refused(
    payload: Seq<u8>,
    initiator: bool,
    seal: bool,
    subkey: bool,
    ec: u16,
    rrc: u16,
    seq: u64,
    r: Result<WrapToken, Error>,
)
    requires
        wrap_token_result(
            header(token_flags(initiator, seal, subkey), ec, rrc, seq) + payload,
            initiator,
            r,
        ),
    ensures
        r == Err::<WrapToken, Error>(Error::Integrity),
{
    let flags = token_flags(initiator, seal, subkey);
    lemma_token_flags(initiator, seal, subkey);
    let tok = header(flags, ec, rrc, seq) + payload;
    lemma_header_fields(Seq::empty(), flags, ec, rrc, seq, payload);
    assert(Seq::<u8>::empty() + header(flags, ec, rrc, seq) + payload =~= tok);
    assert(tok[0] == 0x05);
}

/// A token that is too short for a header, or does not start as a wrap token
/// does, is refused.
pub proof fn law_other_token_is_refused(
    token: Seq<u8>,
    initiator: bool,
    r: Result<WrapToken, Error>,
)
    requires
        wrap_token_result(token, initiator, r),
        token.len() == 0 || token[0] != 0x60,
        token.len() < 16 || token[0] != 5 || token[1] != 4 || token[3] != 0xff,
    ensures
        r == Err::<WrapToken, Error>(Error::Truncated),
{
}

/// Rotating left by `n` takes each place from `n` places further on, around the
/// end.
pub proof fn law_rotation_moves_each_place(s: Seq<u8>, n: nat, i: int)
    requires
        0 <= i < s.len(),
    ensures
        rotated_left(s, n as int)[i] == s[(i + n) % (s.len() as int)],
{
    let len = s.len() as int;
    let k = n as int % len;
    vstd::arithmetic::div_mod::lemma_mod_bound(n as int, len);
    vstd::arithmetic::div_mod::lemma_add_mod_noop_right(i, n as int, len);
    assert((i + n) % len == (i + k) % len);
    if i < len - k {
        assert(rotated_left(s, n as int)[i] == s[k + i]);
        vstd::arithmetic::div_mod::lemma_small_mod((i + k) as nat, len as nat);
    } else {
        assert(rotated_left(s, n as int)[i] == s[i - (len - k)]);
        vstd::arithmetic::div_mod::lemma_mod_sub_multiples_vanish(i + k, len);
        vstd::arithmetic::div_mod::lemma_small_mod((i + k - len) as nat, len as nat);
    }
}

/// Decrypted octets whose last sixteen are not the header that stood in front
/// of them, but for its rotation, are not taken.
pub proof fn law_sealed_header_is_held_to(plain: Seq<u8>, flags: u8, ec: u16, seq: u64, i: int)
    requires
        ends_in_header(plain, flags, ec, seq),
        0 <= i < 16,
        i != 6,
        i != 7,
    ensures
        plain.len() >= 16 + ec,
        plain[plain.len() - 16 + i] == header(flags, ec, 0, seq)[i],
{
    let h = header(flags, ec, 0, seq);
    let at = plain.len() - 16;
    assert(h[0] == 5 && h[1] == 4 && h[2] == flags && h[3] == 0xff);
    assert(h[4] == be16(ec)[0] && h[5] == be16(ec)[1]);
    assert(h.subrange(8, 16) =~= be64(seq));
    lemma_be16_octets(plain, at + 4, ec);
    lemma_be64_octets(plain, at + 8, seq);
    if i >= 8 {
        assert(h[i] == h.subrange(8, 16)[i - 8]);
    }
}

/// The octets at a place are those of the number that they stand for.
proof fn lemma_be16_octets(s: Seq<u8>, i: int, v: u16)
    requires
        from_be16(s, i) == v,
    ensures
        s[i] == be16(v)[0],
        s[i + 1] == be16(v)[1],
{
}

/// The octets at a place are those of the number that they stand for.
proof fn lemma_be32_octets(s: Seq<u8>, i: int, v: u32)
    requires
        from_be32(s, i) == v,
    ensures
        forall|k: int| 0 <= k < 4 ==> s[i + k] == #[trigger] be32(v)[k],
{
}

/// The octets at a place are those of the number that they stand for.
proof fn lemma_be64_octets(s: Seq<u8>, i: int, v: u64)
    requires
        from_be64(s, i) == v,
    ensures
        forall|k: int| 0 <= k < 8 ==> s[i + k] == #[trigger] be64(v)[k],
{
    let h = from_be32(s, i);
    let l = from_be32(s, i + 4);
    lemma_be32_octets(s, i, h);
    lemma_be32_octets(s, i + 4, l);
    assert(v / 0x1_0000_0000 == h);
    assert(v % 0x1_0000_0000 == l);
    assert forall|k: int| 0 <= k < 8 implies s[i + k] == #[trigger] be64(v)[k] by {
        if k < 4 {
            assert(be64(v)[k] == be32(h)[k]);
        } else {
            assert(be64(v)[k] == be32(l)[k - 4]);
            assert(s[(i + 4) + (k - 4)] == be32(l)[k - 4]);
        }
    }
}

} // verus!
