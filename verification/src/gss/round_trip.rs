//! What is wrapped in buffers is unwrapped from them.

use crate::gss::buffers::{
    associated_input, associated_message, associated_read, associated_signed, associated_token,
    confounded, iov_refused, joinable, judged_buffers, judged_row, key_kind,
    lemma_only_header_is_first, message_placed, message_taken, opened_buffers, row_input,
    signed_message, signed_octets, signed_read, token_placed, unwrap_associated_result,
    unwrap_iov_result, unwrap_joined_result, unwrap_signed_result, wrap_associated_result,
    wrap_iov_integ_result, wrap_iov_sealed_result, IovKey,
};
use crate::gss::context::{seq_step, GssContext};
use crate::gss::error::{inner_error, Error};
use crate::gss::iov::{
    cipher_mac_input, data_of, data_written, first_flags, has_associated, has_kind, has_one,
    joined_token, kinds_kept, law_split_token_joins, law_written_data_reads_back, lemma_data_kept,
    lemma_one_kept, lemma_written_parts, mac_row, one_of, one_written, only_one, padding_cleared,
    plain_mac_input, same_shape, sealed_iov_result, signed_of, signed_placed, splits, token_written,
    IovBuf, IovType, SealedIov,
};
use crate::gss::message::{
    law_wrap_round_trip, peer_wrap_usage, peers, sealed_next, sealing_result, undoes, unwrap_result,
    verifies, wrap_usage,
};
use crate::gss::mic::{cksum_result, CksumVerdict};
use crate::gss::wrap::{
    checksum_header, header, law_sign_round_trip, lemma_header_fields, lemma_sealed_plain,
    lemma_token_flags, rotated_left, sealed, sealed_plain, sealed_token, signed_input, signed_token,
    token_flags, wrap_token_result, WrapToken, TOK_WRAP,
};
use crate::msg::EncryptionKey;
use vstd::prelude::*;

verus! {

/// No message is read from buffers in which there is data that is signed only,
/// unless the checksum over them is the one that the token holds.
pub proof fn law_unsigned_buffers_are_refused<
    O: Fn(&EncryptionKey, u32, &Vec<u8>) -> Result<(Vec<u8>, Vec<u8>), Error>,
    H: Fn(&EncryptionKey, u32, &Vec<u8>) -> Result<Vec<u8>, Error>,
>(
    c: GssContext,
    v: Seq<IovBuf>,
    k: IovKey,
    s: SealedIov,
    open_cts: O,
    integrity: H,
    msg: Vec<u8>,
)
    requires
        associated_message(c, v, k, s, open_cts, integrity, Ok(msg)),
    ensures
        exists|input: Seq<u8>, m: Vec<u8>|
            {
                &&& #[trigger] signed_octets(
                    integrity,
                    c.key_for(s.flags)->0,
                    peer_wrap_usage(c.initiator),
                    input,
                    Ok(m),
                )
                &&& m@ == s.mac@
                &&& if k.cipher_signed {
                    cipher_mac_input(v, s.cipher@) == Some(input)
                } else {
                    exists|conf: Seq<u8>| #[trigger]
                        plain_mac_input(v, conf, msg@, s.tok_hdr@) == Some(input)
                }
            },
{
}

/// `kind` always says the same of a key.
pub open spec fn settled<K: Fn(&EncryptionKey) -> IovKey>(kind: K) -> bool {
    forall|y: EncryptionKey, a: IovKey, b: IovKey|
        #![trigger call_ensures(kind, (&y,), a), call_ensures(kind, (&y,), b)]
        call_ensures(kind, (&y,), a) && call_ensures(kind, (&y,), b) ==> a == b
}

/// Splitting a token into buffers does not change whether there is data that is
/// signed only, and its flags stand in the first header buffer.
proof fn lemma_written_flags(
    before: Seq<IovBuf>,
    after: Seq<IovBuf>,
    tok: Seq<u8>,
    n: nat,
    trailer_len: nat,
)
    requires
        splits(before, tok, n, trailer_len),
        token_written(before, after, tok, n),
    ensures
        has_associated(after) == has_associated(before),
        first_flags(after) == Some(tok[2]),
{
    lemma_written_parts(before, after, tok, n, trailer_len);
    let h = choose|i: int| only_one(after, IovType::Header, i);
    assert(only_one(after, IovType::Header, h));
    lemma_only_header_is_first(after, h);
    assert(one_of(after, IovType::Header) == after[h].data@);
    assert(tok.take(32)[2] == tok[2]);
    if has_associated(before) {
        let i = choose|i: int|
            0 <= i < before.len() && (#[trigger] before[i]).kind == IovType::SignOnly
                && before[i].data@.len() > 0;
        assert(after[i] == before[i]);
    }
    if has_associated(after) {
        let i = choose|i: int|
            0 <= i < after.len() && (#[trigger] after[i]).kind == IovType::SignOnly
                && after[i].data@.len() > 0;
        assert(after[i] == before[i]);
    }
}

/// What is sealed in buffers without data that is signed only is unwrapped from
/// them: the data buffers of the other side hold what this side's held, where
/// the two hold the same keys, encryption is undone by decryption and the
/// sequence number is not refused.
pub proof fn law_sealed_buffers_round_trip<
    K: Fn(&EncryptionKey) -> IovKey,
    S: Fn(&EncryptionKey, u32, &Vec<u8>) -> Result<Vec<u8>, Error>,
    T: Fn(&EncryptionKey, u32, &Vec<u8>, &Vec<u8>) -> Result<Vec<u8>, Error>,
    H: Fn(&EncryptionKey, u32, &Vec<u8>) -> Result<Vec<u8>, Error>,
    F: Fn(&EncryptionKey) -> Option<usize>,
    D: Fn(&EncryptionKey, u32, &Vec<u8>) -> Result<Vec<u8>, Error>,
    C: Fn(&EncryptionKey, u32, &Vec<u8>, &Vec<u8>) -> CksumVerdict,
    O: Fn(&EncryptionKey, u32, &Vec<u8>) -> Result<(Vec<u8>, Vec<u8>), Error>,
>(
    a: GssContext,
    a2: GssContext,
    b: GssContext,
    b2: GssContext,
    v: Seq<IovBuf>,
    w: Seq<IovBuf>,
    x: Seq<IovBuf>,
    k: IovKey,
    kind: K,
    seal: S,
    seal_with: T,
    integrity: H,
    size_of: F,
    open: D,
    check: C,
    open_cts: O,
    r: Result<(), Error>,
)
    requires
        peers(a, b),
        undoes(open, seal),
        settled(kind),
        call_ensures(kind, (&a.sending_key(),), k),
        k.aes,
        seq_step(b.seq_state(), a.send_seq) is Some,
        !has_associated(v),
        wrap_iov_sealed_result(a, a2, v, w, k, seal, seal_with, integrity, Ok(())),
        unwrap_iov_result(b, b2, w, x, kind, size_of, open, check, open_cts, integrity, r),
    ensures
        r is Ok,
        restored(v, x),
{
    let n = data_of(v).len();
    let tok = choose|tok: Result<Vec<u8>, Error>| #[trigger]
        sealing_result(a, a2, data_of(v), 0, 0, seal, tok) && token_placed(v, w, k, tok, Ok(()));
    let t = tok->Ok_0;
    lemma_written_parts(v, w, t@, n, (16 + k.hmac_len) as nat);
    lemma_written_flags(v, w, t@, n, (16 + k.hmac_len) as nat);
    law_split_token_joins(v, w, t@, n, (16 + k.hmac_len) as nat);
    let y = choose|y: Result<Vec<u8>, Error>| #[trigger]
        sealed_next(a, data_of(v), 0, seal, y) && (match y {
            Err(e) => false,
            Ok(cipher) => t@ == sealed_token(cipher@, a.seal_flags(), 0, 0, a.send_seq),
        });
    let body = rotated_left((y->Ok_0)@, 0);
    lemma_header_fields(Seq::empty(), a.seal_flags(), 0, 0, a.send_seq, body);
    assert(Seq::<u8>::empty() + header(a.seal_flags(), 0, 0, a.send_seq) + body =~= t@);
    lemma_token_flags(a.initiator, true, a.acceptor_subkey is Some);
    let f = a.seal_flags();
    assert(t@[2] == f);
    assert(b.key_for(f) == Some(a.sending_key()));
    assert(unwrap_joined_result(b, b2, w, x, f, kind, size_of, open, check, r));
    assert forall|q: Result<(Vec<u8>, bool), Error>| #[trigger]
        unwrap_result(b, b2, joined_token(w), size_of, open, check, q) implies (q matches Ok(z)
        && z.0@ == data_of(v)) by {
        law_wrap_round_trip(
            a,
            a2,
            b,
            b2,
            data_of(v),
            0,
            0,
            t,
            seal,
            size_of,
            open,
            check,
            q,
        );
    }
    assert(r is Ok && message_placed(w, x, data_of(v), r));
    lemma_restored(v, w, x);
}

/// A row of buffers is signed alike, whatever its data buffers hold, where they
/// are as long and what is signed only is the same.
proof fn lemma_mac_row_same(v: Seq<IovBuf>, w: Seq<IovBuf>, src: Seq<u8>)
    requires
        kinds_kept(v, w),
        forall|i: int|
            0 <= i < v.len() && v[i].kind == IovType::SignOnly ==> #[trigger] w[i] == v[i],
        forall|i: int|
            0 <= i < v.len() && v[i].kind == IovType::Data ==> (#[trigger] w[i]).data@.len()
                == v[i].data@.len(),
    ensures
        mac_row(v, src) == mac_row(w, src),
    decreases v.len(),
{
    if v.len() > 0 {
        let a = v.drop_last();
        let b = w.drop_last();
        assert forall|i: int| 0 <= i < a.len() implies (#[trigger] b[i]).kind == a[i].kind by {
            assert(w[i].kind == v[i].kind);
        }
        assert forall|i: int| 0 <= i < a.len() && a[i].kind == IovType::SignOnly implies #[trigger] b[
        i] == a[i] by {
            assert(w[i] == v[i]);
        }
        assert forall|i: int|
            0 <= i < a.len() && a[i].kind == IovType::Data implies (#[trigger] b[i]).data@.len()
            == a[i].data@.len() by {
            assert(w[i].data@.len() == v[i].data@.len());
        }
        lemma_mac_row_same(a, b, src);
        let l = v.len() - 1;
        assert(w[l].kind == v[l].kind);
        assert(v[l].kind == IovType::SignOnly ==> w[l] == v[l]);
        assert(v[l].kind == IovType::Data ==> w[l].data@.len() == v[l].data@.len());
    }
}

/// `open_cts` gives back the confounder and the octets that `seal_with` sealed
/// under the same key and usage, from the ciphertext without its checksum.
pub open spec fn restores<
    T: Fn(&EncryptionKey, u32, &Vec<u8>, &Vec<u8>) -> Result<Vec<u8>, Error>,
    O: Fn(&EncryptionKey, u32, &Vec<u8>) -> Result<(Vec<u8>, Vec<u8>), Error>,
>(open_cts: O, seal_with: T, hmac_len: u16) -> bool {
    forall|
        y: EncryptionKey,
        u: u32,
        conf: Vec<u8>,
        p: Vec<u8>,
        x: Vec<u8>,
        z: Vec<u8>,
        q: Result<(Vec<u8>, Vec<u8>), Error>,
    | #[trigger]
        call_ensures(seal_with, (&y, u, &conf, &p), Ok(x)) && #[trigger] call_ensures(
            open_cts,
            (&y, u, &z),
            q,
        ) && x@.len() >= hmac_len && z@ == x@.take(x@.len() - hmac_len) ==> (q matches Ok(t)
            && t.0@ == conf@ && t.1@ == p@)
}

/// `integrity` makes the same checksum of the same octets.
pub open spec fn steady<H: Fn(&EncryptionKey, u32, &Vec<u8>) -> Result<Vec<u8>, Error>>(
    integrity: H,
) -> bool {
    forall|y: EncryptionKey, u: u32, p: Vec<u8>, q: Vec<u8>, m: Vec<u8>, n: Result<Vec<u8>, Error>|

        #[trigger] call_ensures(integrity, (&y, u, &p), Ok(m)) && #[trigger] call_ensures(
            integrity,
            (&y, u, &q),
            n,
        ) && p@ == q@ ==> (n matches Ok(x) && x@ == m@)
}

/// The parts of a sealed token that was split into buffers, where there is data
/// that is signed only.
proof fn lemma_sealed_parts(
    a: GssContext,
    b: GssContext,
    v: Seq<IovBuf>,
    w: Seq<IovBuf>,
    k: IovKey,
    text: Seq<u8>,
    mac: Seq<u8>,
    s: Result<SealedIov, Error>,
)
    requires
        peers(a, b),
        k.aes,
        mac.len() == k.hmac_len,
        has_kind(v, IovType::Data),
        ({
            let tok = header(a.seal_flags(), 0, 0, a.send_seq) + text + mac;
            let n = data_of(v).len();
            splits(v, tok, n, (16 + k.hmac_len) as nat) && token_written(v, w, tok, n)
        }),
        sealed_iov_result(b, w, k.aes, k.hmac_len as nat, s),
    ensures
        s matches Ok(t) && {
            &&& t.tok_hdr@ == header(a.seal_flags(), 0, 0, a.send_seq)
            &&& t.flags == a.seal_flags()
            &&& t.ec == 0
            &&& t.seq == a.send_seq
            &&& t.cipher@ == text
            &&& t.mac@ == mac
        },
        b.key_for(a.seal_flags()) == Some(a.sending_key()),
{
    let hdr = header(a.seal_flags(), 0, 0, a.send_seq);
    let tok = hdr + text + mac;
    let n = data_of(v).len();
    lemma_written_parts(v, w, tok, n, (16 + k.hmac_len) as nat);
    lemma_token_flags(a.initiator, true, a.acceptor_subkey is Some);
    let h = one_of(w, IovType::Header);
    let t = one_of(w, IovType::Trailer);
    lemma_header_fields(Seq::empty(), a.seal_flags(), 0, 0, a.send_seq, text.take(16));
    assert(hdr.len() == 16) by {
        assert(Seq::<u8>::empty() + hdr + text.take(16) =~= hdr + text.take(16));
    }
    assert(text.len() == 32 + n);
    assert(Seq::<u8>::empty() + hdr + text.take(16) =~= h);
    assert(h.take(16) =~= hdr);
    assert(h.skip(16) =~= text.take(16));
    assert(t.take(16) =~= text.skip((16 + n) as int));
    assert(t.skip(16) =~= mac);
    assert(data_of(w) =~= text.subrange(16, (16 + n) as int));
    assert(h.skip(16) + data_of(w) + t.take(16) =~= text);
}

/// What is sealed in buffers with data that is signed only is unwrapped from
/// them: the data buffers of the other side hold what this side's held, where
/// the two hold the same keys, encryption is undone by decryption, checksums
/// are made alike and the sequence number is not refused.
#[verifier::rlimit(30)]
pub proof fn law_associated_buffers_round_trip<
    K: Fn(&EncryptionKey) -> IovKey,
    T: Fn(&EncryptionKey, u32, &Vec<u8>, &Vec<u8>) -> Result<Vec<u8>, Error>,
    H: Fn(&EncryptionKey, u32, &Vec<u8>) -> Result<Vec<u8>, Error>,
    F: Fn(&EncryptionKey) -> Option<usize>,
    D: Fn(&EncryptionKey, u32, &Vec<u8>) -> Result<Vec<u8>, Error>,
    C: Fn(&EncryptionKey, u32, &Vec<u8>, &Vec<u8>) -> CksumVerdict,
    O: Fn(&EncryptionKey, u32, &Vec<u8>) -> Result<(Vec<u8>, Vec<u8>), Error>,
>(
    a: GssContext,
    a2: GssContext,
    b: GssContext,
    b2: GssContext,
    v: Seq<IovBuf>,
    w: Seq<IovBuf>,
    x: Seq<IovBuf>,
    k: IovKey,
    conf: Vec<u8>,
    kind: K,
    seal_with: T,
    integrity: H,
    size_of: F,
    open: D,
    check: C,
    open_cts: O,
    r: Result<(), Error>,
)
    requires
        peers(a, b),
        restores(open_cts, seal_with, k.hmac_len),
        steady(integrity),
        settled(kind),
        call_ensures(kind, (&a.sending_key(),), k),
        k.aes,
        seq_step(b.seq_state(), a.send_seq) is Some,
        has_associated(v),
        wrap_associated_result(a, a2, v, w, k, conf, seal_with, integrity, Ok(())),
        unwrap_iov_result(b, b2, w, x, kind, size_of, open, check, open_cts, integrity, r),
    ensures
        r is Ok,
        restored(v, x),
{
    let n = data_of(v).len();
    let hdr = header(a.seal_flags(), 0, 0, a.send_seq);
    let tok = choose|tok: Result<Vec<u8>, Error>| #[trigger]
        associated_token(a, v, k, conf, seal_with, integrity, tok) && token_placed(
            v,
            w,
            k,
            tok,
            Ok(()),
        );
    let t = tok->Ok_0;
    let y = choose|y: Result<Vec<u8>, Error>| #[trigger]
        confounded(a, v, conf, seal_with, y) && (match y {
            Err(e) => false,
            Ok(cipher) => associated_signed(a, v, k, conf@, cipher@, integrity, tok),
        });
    let cipher = y->Ok_0;
    let text = cipher@.take(cipher@.len() - k.hmac_len);
    let input = associated_input(v, k, conf@, text, data_of(v), hdr)->0;
    let m = choose|m: Result<Vec<u8>, Error>|
        {
            &&& #[trigger] signed_octets(
                integrity,
                a.sending_key(),
                wrap_usage(a.initiator),
                input,
                m,
            )
            &&& match m {
                Err(e) => false,
                Ok(mac) => mac@.len() == k.hmac_len && t@ == hdr + text + mac@,
            }
        };
    let mac = m->Ok_0;
    lemma_written_parts(v, w, t@, n, (16 + k.hmac_len) as nat);
    lemma_written_flags(v, w, t@, n, (16 + k.hmac_len) as nat);
    lemma_token_flags(a.initiator, true, a.acceptor_subkey is Some);
    lemma_header_fields(Seq::empty(), a.seal_flags(), 0, 0, a.send_seq, text + mac@);
    assert(Seq::<u8>::empty() + hdr + (text + mac@) =~= t@);
    let f = a.seal_flags();
    assert(t@[2] == f);
    lemma_mac_row_same(v, w, text.skip(16));
    lemma_mac_row_same(v, w, data_of(v));
    lemma_sealed_plain(data_of(v), f, 0, a.send_seq);
    assert(unwrap_associated_result(b, b2, w, x, f, kind, open_cts, integrity, r));
    let q = choose|q: Result<(u64, Vec<u8>), Error>| #[trigger]
        associated_read(b, w, f, kind, open_cts, integrity, q) && (match q {
            Err(e) => iov_refused(b, b2, w, x, e, r),
            Ok(z) => message_taken(b, b2, w, x, z.0, z.1@, r),
        });
    let (k2, s) = choose|k2: IovKey, s: Result<SealedIov, Error>|
        {
            &&& #[trigger] key_kind(b, f, kind, k2)
            &&& #[trigger] sealed_iov_result(b, w, k2.aes, k2.hmac_len as nat, s)
            &&& match s {
                Err(e) => q matches Err(z) && z == e,
                Ok(u) => exists|g: Result<Vec<u8>, Error>|
                    {
                        &&& #[trigger] associated_message(b, w, k2, u, open_cts, integrity, g)
                        &&& match g {
                            Err(e) => q matches Err(z) && z == e,
                            Ok(msg) => q matches Ok(z) && z.0 == u.seq && z.1 == msg,
                        }
                    },
            }
        };
    assert(b.key_for(f) == Some(a.sending_key()));
    assert(k2 == k);
    lemma_sealed_parts(a, b, v, w, k, text, mac@, s);
    let u = s->Ok_0;
    let g = choose|g: Result<Vec<u8>, Error>|
        {
            &&& #[trigger] associated_message(b, w, k, u, open_cts, integrity, g)
            &&& match g {
                Err(e) => q matches Err(z) && z == e,
                Ok(msg) => q matches Ok(z) && z.0 == u.seq && z.1 == msg,
            }
        };
    assert forall|p: Result<(Vec<u8>, Vec<u8>), Error>| #[trigger]
        opened_buffers(b, u, open_cts, p) implies (p matches Ok(z) && z.0@ == conf@ && z.1@
        == sealed_plain(data_of(v), f, 0, a.send_seq)) by {
    }
    assert forall|j: Result<(), Error>| #[trigger]
        judged_buffers(b, u, Some(input), integrity, j) implies j is Ok by {
    }
    if k.cipher_signed {
        assert(cipher_mac_input(w, u.cipher@) == Some(input));
    } else {
        assert(plain_mac_input(w, conf@, data_of(v), u.tok_hdr@) == Some(input));
    }
    assert(g matches Ok(msg) && msg@ == data_of(v));
    assert(message_placed(w, x, data_of(v), r));
    lemma_restored(v, w, x);
}

/// The row of buffers with their own data is what is signed.
proof fn lemma_row_is_signed(v: Seq<IovBuf>, src: Seq<u8>)
    requires
        data_of(v).len() <= src.len(),
        src.take(data_of(v).len() as int) == data_of(v),
    ensures
        mac_row(v, src) == Some((signed_of(v), data_of(v).len() as int)),
    decreases v.len(),
{
    if v.len() > 0 {
        let a = v.drop_last();
        let n = data_of(a).len() as int;
        assert(src.take(n) =~= data_of(v).take(n));
        assert(data_of(v).take(n) =~= data_of(a));
        lemma_row_is_signed(a, src);
        if v.last().kind == IovType::Data {
            let m = v.last().data@.len();
            assert(src.subrange(n, n + m) =~= data_of(v).skip(n));
            assert(data_of(v).skip(n) =~= v.last().data@);
        }
    }
}

/// Where nothing is signed only, what is signed is the data.
proof fn lemma_signed_is_data(v: Seq<IovBuf>)
    requires
        !has_associated(v),
    ensures
        signed_of(v) == data_of(v),
    decreases v.len(),
{
    if v.len() > 0 {
        let a = v.drop_last();
        if has_associated(a) {
            let i = choose|i: int|
                0 <= i < a.len() && (#[trigger] a[i]).kind == IovType::SignOnly
                    && a[i].data@.len() > 0;
            assert(v[i] == a[i]);
        }
        lemma_signed_is_data(a);
        let l = v.len() - 1;
        assert(v[l].kind == IovType::SignOnly ==> v[l].data@ =~= Seq::<u8>::empty());
        assert(data_of(a) + Seq::<u8>::empty() =~= data_of(a));
    }
}

/// Buffers of the same kinds whose data buffers are as long and hold the same
/// together hold the same each.
proof fn lemma_data_each(v: Seq<IovBuf>, x: Seq<IovBuf>, i: int)
    requires
        kinds_kept(v, x),
        forall|k: int|
            0 <= k < v.len() && v[k].kind == IovType::Data ==> (#[trigger] x[k]).data@.len()
                == v[k].data@.len(),
        data_of(x) == data_of(v),
        0 <= i < v.len(),
        v[i].kind == IovType::Data,
    ensures
        x[i].data@ == v[i].data@,
    decreases v.len(),
{
    let a = v.drop_last();
    let b = x.drop_last();
    let l = v.len() - 1;
    assert(x[l].kind == v[l].kind);
    if v[l].kind == IovType::Data {
        assert(x[l].data@.len() == v[l].data@.len());
        assert(x.last() == x[l] && v.last() == v[l]);
        assert(data_of(x) == data_of(b) + x[l].data@);
        assert(data_of(v) == data_of(a) + v[l].data@);
        let n = data_of(a).len() as int;
        assert(data_of(b).len() == n);
        assert(data_of(v).take(n) =~= data_of(a));
        assert(data_of(x).take(n) =~= data_of(b));
        assert(data_of(v).skip(n) =~= v[l].data@);
        assert(data_of(x).skip(n) =~= x[l].data@);
    }
    if i < l {
        assert forall|k: int| 0 <= k < a.len() implies (#[trigger] b[k]).kind == a[k].kind by {
            assert(x[k].kind == v[k].kind);
        }
        assert forall|k: int|
            0 <= k < a.len() && a[k].kind == IovType::Data implies (#[trigger] b[k]).data@.len()
            == a[k].data@.len() by {
            assert(x[k].data@.len() == v[k].data@.len());
        }
        lemma_data_each(a, b, i);
    }
}

/// Every buffer that holds data, or data that is signed only, holds the octets
/// that it held.
pub open spec fn restored(v: Seq<IovBuf>, x: Seq<IovBuf>) -> bool {
    &&& kinds_kept(v, x)
    &&& forall|i: int|
        0 <= i < v.len() && (v[i].kind == IovType::Data || v[i].kind == IovType::SignOnly)
            ==> (#[trigger] x[i]).data@ == v[i].data@
}

/// Buffers that went out as `w` and came back as `x` are restored.
proof fn lemma_restored(v: Seq<IovBuf>, w: Seq<IovBuf>, x: Seq<IovBuf>)
    requires
        kinds_kept(v, w),
        forall|i: int|
            0 <= i < v.len() && v[i].kind == IovType::SignOnly ==> #[trigger] w[i] == v[i],
        forall|i: int|
            0 <= i < v.len() && v[i].kind == IovType::Data ==> (#[trigger] w[i]).data@.len()
                == v[i].data@.len(),
        data_of(w).len() == data_of(v).len(),
        data_written(w, x, data_of(v)),
        same_shape(w, x),
    ensures
        restored(v, x),
        data_of(x) == data_of(v),
{
    law_written_data_reads_back(w, x, data_of(v));
    assert forall|i: int| 0 <= i < v.len() implies (#[trigger] x[i]).kind == v[i].kind by {
        assert(w[i].kind == v[i].kind);
    }
    assert forall|k: int|
        0 <= k < v.len() && v[k].kind == IovType::Data implies (#[trigger] x[k]).data@.len()
        == v[k].data@.len() by {
        assert(w[k].data@.len() == v[k].data@.len());
    }
    assert forall|i: int|
        0 <= i < v.len() && (v[i].kind == IovType::Data || v[i].kind
            == IovType::SignOnly) implies (#[trigger] x[i]).data@ == v[i].data@ by {
        if v[i].kind == IovType::Data {
            lemma_data_each(v, x, i);
        } else {
            assert(w[i] == v[i]);
            assert(x[i] == w[i]);
        }
    }
}

/// The token in signed buffers.
proof fn lemma_signed_parts(
    c: GssContext,
    d: GssContext,
    v: Seq<IovBuf>,
    w: Seq<IovBuf>,
    mac: Seq<u8>,
)
    requires
        has_kind(v, IovType::Data),
        signed_placed(c, d, v, w, mac, Ok(())),
    ensures
        joinable(w),
        data_of(w) == data_of(v),
        joined_token(w) == signed_token(
            data_of(v),
            mac,
            token_flags(c.initiator, false, c.acceptor_subkey is Some),
            c.send_seq,
        ),
        first_flags(w) == Some(token_flags(c.initiator, false, c.acceptor_subkey is Some)),
        has_associated(w) == has_associated(v),
        kinds_kept(v, w),
        forall|i: int|
            0 <= i < v.len() && (v[i].kind == IovType::SignOnly || v[i].kind == IovType::Data)
                ==> #[trigger] w[i] == v[i],
        mac.len() <= 0xffff,
{
    let flags = token_flags(c.initiator, false, c.acceptor_subkey is Some);
    let hdr = header(flags, mac.len() as u16, 0, c.send_seq);
    let (a, b) = choose|a: Seq<IovBuf>, b: Seq<IovBuf>|
        {
            &&& #[trigger] one_written(v, a, IovType::Header, hdr)
            &&& #[trigger] one_written(a, b, IovType::Trailer, mac)
            &&& padding_cleared(b, w)
        };
    lemma_header_fields(Seq::empty(), flags, mac.len() as u16, 0, c.send_seq, Seq::empty());
    assert(Seq::<u8>::empty() + hdr + Seq::<u8>::empty() =~= hdr);
    assert(kinds_kept(v, a));
    assert(kinds_kept(a, b)) by {
        assert forall|i: int| 0 <= i < a.len() implies (#[trigger] b[i]).kind == a[i].kind by {}
    }
    assert(kinds_kept(b, w)) by {
        assert forall|i: int| 0 <= i < b.len() implies (#[trigger] w[i]).kind == b[i].kind by {}
    }
    lemma_data_kept(v, a, IovType::Header);
    lemma_data_kept(a, b, IovType::Trailer);
    lemma_data_kept(b, w, IovType::Padding);
    lemma_one_kept(v, w, IovType::Header);
    lemma_one_kept(v, w, IovType::Trailer);
    lemma_one_kept(v, w, IovType::Data);
    lemma_one_kept(b, w, IovType::Padding);
    let h = choose|i: int| only_one(w, IovType::Header, i);
    assert(only_one(w, IovType::Header, h));
    assert(w[h].kind == v[h].kind);
    assert(a[h].data@ == hdr);
    assert(b[h] == a[h]);
    assert(w[h] == b[h]);
    lemma_only_header_is_first(w, h);
    let t = choose|i: int| only_one(w, IovType::Trailer, i);
    assert(only_one(w, IovType::Trailer, t));
    assert(w[t].kind == b[t].kind);
    assert(b[t].kind == a[t].kind);
    assert(b[t].data@ == mac);
    assert(w[t] == b[t]);
    if has_one(w, IovType::Padding) {
        let p = choose|i: int| only_one(w, IovType::Padding, i);
        assert(only_one(b, IovType::Padding, p));
        assert forall|i: int| 0 <= i < p implies (#[trigger] b[i]).kind != IovType::Padding by {}
        assert(w[p].data@ =~= Seq::<u8>::empty());
    }
    assert(one_of(w, IovType::Padding) =~= Seq::<u8>::empty());
    assert forall|i: int|
        0 <= i < v.len() && (v[i].kind == IovType::SignOnly || v[i].kind
            == IovType::Data) implies #[trigger] w[i] == v[i] by {
        assert(a[i] == v[i]);
        assert(b[i] == a[i]);
        assert(w[i] == b[i]);
    }
    assert forall|i: int| 0 <= i < v.len() implies (#[trigger] w[i]).kind == v[i].kind by {
        assert(a[i].kind == v[i].kind);
        assert(b[i].kind == a[i].kind);
    }
    if has_associated(w) {
        let i = choose|i: int|
            0 <= i < w.len() && (#[trigger] w[i]).kind == IovType::SignOnly && w[i].data@.len() > 0;
        assert(w[i].kind == v[i].kind);
        assert(w[i] == v[i]);
    }
    if has_associated(v) {
        let i = choose|i: int|
            0 <= i < v.len() && (#[trigger] v[i]).kind == IovType::SignOnly && v[i].data@.len() > 0;
        assert(w[i] == v[i]);
    }
    assert(joined_token(w) =~= signed_token(data_of(v), mac, flags, c.send_seq));
}

/// A signed token in buffers is read, where there is data that is signed only.
#[verifier::rlimit(30)]
proof fn lemma_signed_row_read<
    M: Fn(&EncryptionKey, u32, &Vec<u8>) -> Result<Vec<u8>, Error>,
    F: Fn(&EncryptionKey) -> Option<usize>,
    C: Fn(&EncryptionKey, u32, &Vec<u8>, &Vec<u8>) -> CksumVerdict,
>(
    a: GssContext,
    b: GssContext,
    v: Seq<IovBuf>,
    w: Seq<IovBuf>,
    m: Vec<u8>,
    mac: M,
    size_of: F,
    check: C,
    q: Result<(u64, Vec<u8>), Error>,
)
    requires
        peers(a, b),
        verifies(size_of, check, mac),
        m@.len() <= 0xffff,
        kinds_kept(v, w),
        forall|i: int|
            0 <= i < v.len() && (v[i].kind == IovType::SignOnly || v[i].kind == IovType::Data)
                ==> #[trigger] w[i] == v[i],
        joined_token(w) == signed_token(
            data_of(v),
            m@,
            token_flags(a.initiator, false, a.acceptor_subkey is Some),
            a.send_seq,
        ),
        signed_octets(
            mac,
            a.sending_key(),
            wrap_usage(a.initiator),
            signed_of(v) + header(
                token_flags(a.initiator, false, a.acceptor_subkey is Some),
                0,
                0,
                a.send_seq,
            ),
            Ok(m),
        ),
        signed_read(b, w, size_of, check, q),
    ensures
        q matches Ok(z) && z.0 == a.send_seq && z.1@ == data_of(v),
{
    let f = token_flags(a.initiator, false, a.acceptor_subkey is Some);
    let input = signed_of(v) + header(f, 0, 0, a.send_seq);
    lemma_token_flags(a.initiator, false, a.acceptor_subkey is Some);
    let t = choose|t: Result<WrapToken, Error>| #[trigger]
        wrap_token_result(joined_token(w), b.initiator, t) && (match t {
            Err(e) => q matches Err(y) && y == e,
            Ok(u) => if sealed(u.flags) {
                q matches Err(y) && y == Error::Truncated
            } else {
                match b.key_for(u.flags) {
                    None => q matches Err(y) && inner_error(y, "gss acceptor subkey"@),
                    Some(key) => exists|size: Option<usize>| #[trigger]
                        call_ensures(size_of, (&key,), size) && signed_message(
                            b,
                            w,
                            u,
                            size,
                            check,
                            q,
                        ),
                }
            },
        });
    law_sign_round_trip(data_of(v), m@, a.initiator, a.acceptor_subkey is Some, a.send_seq, t);
    let u = t->Ok_0;
    assert(b.key_for(u.flags) == Some(a.sending_key()));
    lemma_mac_row_same(v, w, data_of(v));
    assert(data_of(v).take(data_of(v).len() as int) =~= data_of(v));
    lemma_row_is_signed(v, data_of(v));
    assert(Seq::<u8>::empty() + signed_of(v) + checksum_header(TOK_WRAP@, f, a.send_seq, false)
        =~= input);
    assert(row_input(w, u, data_of(v)) == Some(input));
    assert forall|verdict: CksumVerdict| #[trigger]
        judged_row(b, u, input, m@, check, verdict) implies cksum_result(verdict) is Ok by {
    }
}

/// A signed token is read.
proof fn lemma_signed_token_read<
    M: Fn(&EncryptionKey, u32, &Vec<u8>) -> Result<Vec<u8>, Error>,
    F: Fn(&EncryptionKey) -> Option<usize>,
    D: Fn(&EncryptionKey, u32, &Vec<u8>) -> Result<Vec<u8>, Error>,
    C: Fn(&EncryptionKey, u32, &Vec<u8>, &Vec<u8>) -> CksumVerdict,
>(
    a: GssContext,
    b: GssContext,
    b2: GssContext,
    data: Seq<u8>,
    m: Vec<u8>,
    tok: Seq<u8>,
    mac: M,
    size_of: F,
    open: D,
    check: C,
    q: Result<(Vec<u8>, bool), Error>,
)
    requires
        peers(a, b),
        verifies(size_of, check, mac),
        m@.len() <= 0xffff,
        seq_step(b.seq_state(), a.send_seq) is Some,
        tok == signed_token(
            data,
            m@,
            token_flags(a.initiator, false, a.acceptor_subkey is Some),
            a.send_seq,
        ),
        signed_octets(
            mac,
            a.sending_key(),
            wrap_usage(a.initiator),
            signed_input(
                data,
                token_flags(a.initiator, false, a.acceptor_subkey is Some),
                a.send_seq,
            ),
            Ok(m),
        ),
        unwrap_result(b, b2, tok, size_of, open, check, q),
    ensures
        q matches Ok(z) && z.0@ == data,
{
    lemma_token_flags(a.initiator, false, a.acceptor_subkey is Some);
    assert forall|t: Result<WrapToken, Error>| #[trigger]
        wrap_token_result(tok, b.initiator, t) implies (t matches Ok(u) && !sealed(u.flags)
        && u.flags == token_flags(a.initiator, false, a.acceptor_subkey is Some) && u.seq
        == a.send_seq && u.ec == m@.len() && u.payload@.len() == data.len() + m@.len()
        && u.payload@.take(data.len() as int) == data && u.payload@.skip(data.len() as int)
        == m@) by {
        law_sign_round_trip(data, m@, a.initiator, a.acceptor_subkey is Some, a.send_seq, t);
    }
}

/// What is signed in buffers is unwrapped from them: every buffer of data, or of
/// data that is signed only, holds on the other side what it held, where the two
/// hold the same keys, a checksum that was made is verified and the sequence
/// number is not refused.
#[verifier::rlimit(30)]
pub proof fn law_signed_buffers_round_trip<
    K: Fn(&EncryptionKey) -> IovKey,
    M: Fn(&EncryptionKey, u32, &Vec<u8>) -> Result<Vec<u8>, Error>,
    H: Fn(&EncryptionKey, u32, &Vec<u8>) -> Result<Vec<u8>, Error>,
    F: Fn(&EncryptionKey) -> Option<usize>,
    D: Fn(&EncryptionKey, u32, &Vec<u8>) -> Result<Vec<u8>, Error>,
    C: Fn(&EncryptionKey, u32, &Vec<u8>, &Vec<u8>) -> CksumVerdict,
    O: Fn(&EncryptionKey, u32, &Vec<u8>) -> Result<(Vec<u8>, Vec<u8>), Error>,
>(
    a: GssContext,
    a2: GssContext,
    b: GssContext,
    b2: GssContext,
    v: Seq<IovBuf>,
    w: Seq<IovBuf>,
    x: Seq<IovBuf>,
    k: IovKey,
    kind: K,
    mac: M,
    integrity: H,
    size_of: F,
    open: D,
    check: C,
    open_cts: O,
    r: Result<(), Error>,
)
    requires
        peers(a, b),
        verifies(size_of, check, mac),
        settled(kind),
        call_ensures(kind, (&a.sending_key(),), k),
        k.aes,
        seq_step(b.seq_state(), a.send_seq) is Some,
        wrap_iov_integ_result(a, a2, v, w, mac, Ok(())),
        unwrap_iov_result(b, b2, w, x, kind, size_of, open, check, open_cts, integrity, r),
    ensures
        r is Ok,
        restored(v, x),
{
    let f = token_flags(a.initiator, false, a.acceptor_subkey is Some);
    lemma_token_flags(a.initiator, false, a.acceptor_subkey is Some);
    let input = signed_of(v) + header(f, 0, 0, a.send_seq);
    let y = choose|y: Result<Vec<u8>, Error>|
        {
            &&& #[trigger] signed_octets(
                mac,
                a.sending_key(),
                wrap_usage(a.initiator),
                input,
                y,
            )
            &&& match y {
                Err(e) => false,
                Ok(m) => signed_placed(a, a2, v, w, m@, Ok(())),
            }
        };
    let m = y->Ok_0;
    lemma_signed_parts(a, a2, v, w, m@);
    let tok = joined_token(w);
    assert(b.key_for(f) == Some(a.sending_key()));
    if has_associated(v) {
        assert(unwrap_signed_result(b, b2, w, x, f, kind, size_of, check, r));
        assert forall|q: Result<(u64, Vec<u8>), Error>| #[trigger]
            signed_read(b, w, size_of, check, q) implies (q matches Ok(z) && z.0 == a.send_seq
            && z.1@ == data_of(v)) by {
            lemma_signed_row_read(a, b, v, w, m, mac, size_of, check, q);
        }
        assert(r is Ok && message_placed(w, x, data_of(v), r));
    } else {
        lemma_signed_is_data(v);
        assert(input =~= signed_input(data_of(v), f, a.send_seq));
        assert(unwrap_joined_result(b, b2, w, x, f, kind, size_of, open, check, r));
        assert forall|q: Result<(Vec<u8>, bool), Error>| #[trigger]
            unwrap_result(b, b2, tok, size_of, open, check, q) implies (q matches Ok(z) && z.0@
            == data_of(v)) by {
            lemma_signed_token_read(a, b, b2, data_of(v), m, tok, mac, size_of, open, check, q);
        }
        assert(r is Ok && message_placed(w, x, data_of(v), r));
    }
    lemma_restored(v, w, x);
}

} // verus!
