//! Wrap tokens in buffers: data, header, trailer, and data that is signed
//! only.

use crate::bytes::{append, copy, copy_range, from_be16, from_be64, get_be16, get_be64, zeros};
use crate::gss::context::GssContext;
use crate::gss::error::{inner, inner_error, Error};
use crate::gss::wrap::{
    by_acceptor, check_direction, header, sealed, token_flags, wrap_header, wrap_shape,
    AES_CONFOUNDER, TOK_WRAP,
};
use vstd::prelude::*;
use vstd::slice::slice_subrange;

verus! {

/// What a buffer is for.
#[derive(Clone, Copy, Debug, PartialEq, Eq, Structural)]
pub enum IovType {
    /// Data, encrypted in place.
    Data,
    /// Token header.
    Header,
    /// Token trailer.
    Trailer,
    /// Padding, always empty.
    Padding,
    /// Data that is signed only.
    SignOnly,
}

/// A buffer.
#[derive(Clone, Debug, PartialEq, Eq)]
pub struct IovBuf {
    /// What it is for.
    pub kind: IovType,
    /// Its octets.
    pub data: Vec<u8>,
}

/// `i` is the only buffer of its kind.
pub open spec fn only_one(v: Seq<IovBuf>, kind: IovType, i: int) -> bool {
    &&& 0 <= i < v.len()
    &&& v[i].kind == kind
    &&& forall|j: int| 0 <= j < v.len() && j != i ==> (#[trigger] v[j]).kind != kind
}

/// There is exactly one buffer of this kind.
pub open spec fn has_one(v: Seq<IovBuf>, kind: IovType) -> bool {
    exists|i: int| only_one(v, kind, i)
}

/// Finds the only buffer of a kind.
pub fn iov_find(iov: &Vec<IovBuf>, kind: IovType) -> (r: Result<usize, Error>)
    ensures
        match r {
            Ok(i) => only_one(iov@, kind, i as int),
            Err(e) => e == Error::Truncated && !has_one(iov@, kind),
        },
{
    let mut found: Option<usize> = None;
    let mut i: usize = 0;
    while i < iov.len()
        invariant
            i <= iov.len(),
            match found {
                Some(k) => k < i && iov@[k as int].kind == kind && forall|j: int|
                    0 <= j < i && j != k ==> (#[trigger] iov@[j]).kind != kind,
                None => forall|j: int| 0 <= j < i ==> (#[trigger] iov@[j]).kind != kind,
            },
        decreases iov.len() - i,
    {
        if iov[i].kind == kind {
            match found {
                Some(k) => {
                    proof {
                        if has_one(iov@, kind) {
                            let x = choose|x: int| only_one(iov@, kind, x);
                            assert(iov@[k as int].kind == kind);
                            assert(iov@[i as int].kind == kind);
                        }
                    }
                    return Err(Error::Truncated);
                },
                None => {},
            }
            found = Some(i);
        }
        i = i + 1;
    }
    match found {
        Some(k) => Ok(k),
        None => {
            proof {
                if has_one(iov@, kind) {
                    let x = choose|x: int| only_one(iov@, kind, x);
                    assert(iov@[x].kind != kind);
                }
            }
            Err(Error::Truncated)
        },
    }
}

/// There is a buffer of this kind.
pub open spec fn has_kind(v: Seq<IovBuf>, kind: IovType) -> bool {
    exists|i: int| 0 <= i < v.len() && (#[trigger] v[i]).kind == kind
}

/// The octets of all data buffers in order.
pub open spec fn data_of(v: Seq<IovBuf>) -> Seq<u8>
    decreases v.len(),
{
    if v.len() == 0 {
        Seq::empty()
    } else if v.last().kind == IovType::Data {
        data_of(v.drop_last()) + v.last().data@
    } else {
        data_of(v.drop_last())
    }
}

/// The octets of all buffers that are signed, in order.
pub open spec fn signed_of(v: Seq<IovBuf>) -> Seq<u8>
    decreases v.len(),
{
    if v.len() == 0 {
        Seq::empty()
    } else if v.last().kind == IovType::Data || v.last().kind == IovType::SignOnly {
        signed_of(v.drop_last()) + v.last().data@
    } else {
        signed_of(v.drop_last())
    }
}

/// Adds the octets of all data buffers to `out`; refused where there is no
/// data buffer.
pub fn iov_copy_data(iov: &Vec<IovBuf>, out: &mut Vec<u8>) -> (r: Result<(), Error>)
    ensures
        final(out)@ == old(out)@ + data_of(iov@),
        r == (if has_kind(iov@, IovType::Data) {
            Ok(())
        } else {
            Err(Error::Truncated)
        }),
{
    let ghost before = out@;
    let mut any: bool = false;
    let mut i: usize = 0;
    proof {
        assert(iov@.take(0) =~= Seq::<IovBuf>::empty());
        assert(before + data_of(iov@.take(0)) =~= before);
    }
    while i < iov.len()
        invariant
            i <= iov.len(),
            out@ == before + data_of(iov@.take(i as int)),
            any == exists|k: int| 0 <= k < i && (#[trigger] iov@[k]).kind == IovType::Data,
        decreases iov.len() - i,
    {
        proof {
            assert(iov@.take(i + 1).drop_last() =~= iov@.take(i as int));
            assert(iov@.take(i + 1).last() == iov@[i as int]);
        }
        if iov[i].kind == IovType::Data {
            any = true;
            append(out, iov[i].data.as_slice());
            proof {
                assert(iov@[i as int].kind == IovType::Data);
                assert(out@ =~= before + data_of(iov@.take(i + 1)));
            }
        }
        i = i + 1;
    }
    proof {
        assert(iov@.take(iov@.len() as int) =~= iov@);
    }
    if any {
        Ok(())
    } else {
        Err(Error::Truncated)
    }
}

/// Adds the octets of all buffers that are signed to `out`.
pub fn iov_sign_body(iov: &Vec<IovBuf>, out: &mut Vec<u8>)
    ensures
        final(out)@ == old(out)@ + signed_of(iov@),
{
    let ghost before = out@;
    let mut i: usize = 0;
    proof {
        assert(iov@.take(0) =~= Seq::<IovBuf>::empty());
        assert(before + signed_of(iov@.take(0)) =~= before);
    }
    while i < iov.len()
        invariant
            i <= iov.len(),
            out@ == before + signed_of(iov@.take(i as int)),
        decreases iov.len() - i,
    {
        proof {
            assert(iov@.take(i + 1).drop_last() =~= iov@.take(i as int));
            assert(iov@.take(i + 1).last() == iov@[i as int]);
        }
        if iov[i].kind == IovType::Data || iov[i].kind == IovType::SignOnly {
            append(out, iov[i].data.as_slice());
            proof {
                assert(out@ =~= before + signed_of(iov@.take(i + 1)));
            }
        }
        i = i + 1;
    }
    proof {
        assert(iov@.take(iov@.len() as int) =~= iov@);
    }
}

/// `b` with other octets.
pub open spec fn with_octets(b: IovBuf, s: Seq<u8>, c: IovBuf) -> bool {
    c.kind == b.kind && c.data@ == s
}

/// The buffers after the only one of a kind got other octets.
pub open spec fn one_written(
    before: Seq<IovBuf>,
    after: Seq<IovBuf>,
    kind: IovType,
    s: Seq<u8>,
) -> bool {
    &&& after.len() == before.len()
    &&& forall|i: int|
        0 <= i < before.len() ==> if before[i].kind == kind {
            with_octets(before[i], s, #[trigger] after[i])
        } else {
            after[i] == before[i]
        }
}

/// Writes the only buffer of a kind.
pub fn write_iov_one(iov: &mut Vec<IovBuf>, kind: IovType, bytes: &[u8]) -> (r: Result<(), Error>)
    ensures
        if has_one(old(iov)@, kind) {
            r is Ok && one_written(old(iov)@, final(iov)@, kind, bytes@)
        } else {
            r == Err::<(), Error>(Error::Truncated) && final(iov)@ == old(iov)@
        },
{
    match iov_find(iov, kind) {
        Err(e) => Err(e),
        Ok(i) => {
            proof {
                assert(only_one(iov@, kind, i as int));
            }
            iov.set(i, IovBuf { kind, data: copy(bytes) });
            Ok(())
        },
    }
}

/// The buffers after the data buffers got the octets of `plain` in order,
/// each as many as it held.
pub open spec fn data_written(before: Seq<IovBuf>, after: Seq<IovBuf>, plain: Seq<u8>) -> bool {
    &&& after.len() == before.len()
    &&& forall|i: int|
        0 <= i < before.len() ==> if before[i].kind == IovType::Data {
            with_octets(
                before[i],
                plain.subrange(
                    data_of(before.take(i)).len() as int,
                    data_of(before.take(i)).len() as int + before[i].data@.len(),
                ),
                #[trigger] after[i],
            )
        } else {
            after[i] == before[i]
        }
}

/// The buffers hold as many octets of each kind as before.
pub open spec fn same_shape(before: Seq<IovBuf>, after: Seq<IovBuf>) -> bool {
    &&& after.len() == before.len()
    &&& forall|i: int|
        0 <= i < before.len() ==> (#[trigger] after[i]).kind == before[i].kind
            && after[i].data@.len() == before[i].data@.len()
}

/// The data buffers hold no less in front than in a shorter row.
proof fn lemma_data_grows(v: Seq<IovBuf>, i: int, j: int)
    requires
        0 <= i <= j <= v.len(),
    ensures
        data_of(v.take(i)).len() <= data_of(v.take(j)).len(),
    decreases j - i,
{
    if i < j {
        lemma_data_grows(v, i, j - 1);
        assert(v.take(j).drop_last() =~= v.take(j - 1));
    }
}

/// Writes the data buffers: refused where `plain` is not as long as they are
/// together. What was written up to then stays.
pub fn write_iov_data(iov: &mut Vec<IovBuf>, plain: &[u8]) -> (r: Result<(), Error>)
    ensures
        same_shape(old(iov)@, final(iov)@),
        if data_of(old(iov)@).len() == plain@.len() {
            r is Ok && data_written(old(iov)@, final(iov)@, plain@)
        } else {
            r == Err::<(), Error>(Error::Truncated)
        },
{
    let ghost before = iov@;
    let mut off: usize = 0;
    let mut i: usize = 0;
    proof {
        assert(before.take(0) =~= Seq::<IovBuf>::empty());
        assert(before.take(before.len() as int) =~= before);
    }
    while i < iov.len()
        invariant
            i <= iov.len(),
            iov@.len() == before.len(),
            before == old(iov)@,
            before.take(before.len() as int) == before,
            off == data_of(before.take(i as int)).len(),
            off <= plain@.len(),
            forall|k: int| i <= k < before.len() ==> #[trigger] iov@[k] == before[k],
            forall|k: int|
                0 <= k < i ==> if before[k].kind == IovType::Data {
                    with_octets(
                        before[k],
                        plain@.subrange(
                            data_of(before.take(k)).len() as int,
                            data_of(before.take(k)).len() as int + before[k].data@.len(),
                        ),
                        #[trigger] iov@[k],
                    ) && iov@[k].data@.len() == before[k].data@.len()
                } else {
                    iov@[k] == before[k]
                },
        decreases iov.len() - i,
    {
        proof {
            assert(before.take(i + 1).drop_last() =~= before.take(i as int));
            assert(before.take(i + 1).last() == before[i as int]);
            lemma_data_grows(before, i + 1, before.len() as int);
        }
        if iov[i].kind == IovType::Data {
            let n: usize = iov[i].data.len();
            if plain.len() - off < n {
                return Err(Error::Truncated);
            }
            let chunk = copy_range(plain, off, off + n);
            iov.set(i, IovBuf { kind: IovType::Data, data: chunk });
            off = off + n;
        }
        i = i + 1;
    }
    if off == plain.len() {
        Ok(())
    } else {
        Err(Error::Truncated)
    }
}

/// Where the data buffers were written with `plain`, they hold `plain`.
pub proof fn lemma_written_data(before: Seq<IovBuf>, after: Seq<IovBuf>, plain: Seq<u8>, n: int)
    requires
        data_written(before, after, plain),
        0 <= n <= before.len(),
        data_of(before).len() == plain.len(),
    ensures
        data_of(after.take(n)) == plain.take(data_of(before.take(n)).len() as int),
        data_of(before.take(n)).len() <= plain.len(),
    decreases n,
{
    assert(before.take(before.len() as int) =~= before);
    lemma_data_grows(before, n, before.len() as int);
    if n > 0 {
        lemma_written_data(before, after, plain, n - 1);
        assert(after.take(n).drop_last() =~= after.take(n - 1));
        assert(before.take(n).drop_last() =~= before.take(n - 1));
        assert(after.take(n).last() == after[n - 1]);
        assert(before.take(n).last() == before[n - 1]);
        let a = data_of(before.take(n - 1)).len() as int;
        let b = data_of(before.take(n)).len() as int;
        if before[n - 1].kind == IovType::Data {
            assert(after[n - 1].data@ == plain.subrange(a, b));
            assert(plain.take(a) + plain.subrange(a, b) =~= plain.take(b));
        }
    } else {
        assert(after.take(0) =~= Seq::<IovBuf>::empty());
        assert(before.take(0) =~= Seq::<IovBuf>::empty());
        assert(plain.take(0) =~= Seq::<u8>::empty());
    }
}

/// What is written into the data buffers is read out of them.
pub proof fn law_written_data_reads_back(
    before: Seq<IovBuf>,
    after: Seq<IovBuf>,
    plain: Seq<u8>,
)
    requires
        data_written(before, after, plain),
        data_of(before).len() == plain.len(),
    ensures
        data_of(after) == plain,
{
    lemma_written_data(before, after, plain, before.len() as int);
    assert(after.take(before.len() as int) =~= after);
    assert(before.take(before.len() as int) =~= before);
    assert(plain.take(plain.len() as int) =~= plain);
}

/// The octets of the only buffer of a kind, or none.
pub open spec fn one_of(v: Seq<IovBuf>, kind: IovType) -> Seq<u8> {
    if has_one(v, kind) {
        v[choose|i: int| only_one(v, kind, i)].data@
    } else {
        Seq::empty()
    }
}

/// The token in buffers: header, data, padding and trailer.
pub open spec fn joined_token(v: Seq<IovBuf>) -> Seq<u8> {
    one_of(v, IovType::Header) + data_of(v) + one_of(v, IovType::Padding) + one_of(
        v,
        IovType::Trailer,
    )
}

/// Adds the only buffer of a kind to `out`.
fn append_one(iov: &Vec<IovBuf>, kind: IovType, out: &mut Vec<u8>) -> (r: Result<(), Error>)
    ensures
        final(out)@ == old(out)@ + one_of(iov@, kind),
        r == (if has_one(iov@, kind) {
            Ok(())
        } else {
            Err(Error::Truncated)
        }),
{
    match iov_find(iov, kind) {
        Err(e) => {
            proof {
                assert(out@ + Seq::<u8>::empty() =~= out@);
            }
            Err(e)
        },
        Ok(i) => {
            proof {
                assert(only_one(iov@, kind, i as int));
                let x = choose|x: int| only_one(iov@, kind, x);
                assert(x == i) by {
                    if x != i {
                        assert(iov@[x].kind != kind);
                    }
                }
            }
            append(out, iov[i].data.as_slice());
            Ok(())
        },
    }
}

/// Joins the token in buffers: there must be one header, one trailer and
/// some data buffer.
pub fn join_wrap_token(iov: &Vec<IovBuf>) -> (r: Result<Vec<u8>, Error>)
    ensures
        if has_one(iov@, IovType::Header) && has_kind(iov@, IovType::Data) && has_one(
            iov@,
            IovType::Trailer,
        ) {
            r matches Ok(v) && v@ == joined_token(iov@)
        } else {
            r matches Err(e) && e == Error::Truncated
        },
{
    let mut tok: Vec<u8> = Vec::new();
    match append_one(iov, IovType::Header, &mut tok) {
        Err(e) => {
            return Err(e);
        },
        Ok(()) => {},
    }
    match iov_copy_data(iov, &mut tok) {
        Err(e) => {
            return Err(e);
        },
        Ok(()) => {},
    }
    let ignored = append_one(iov, IovType::Padding, &mut tok);
    match append_one(iov, IovType::Trailer, &mut tok) {
        Err(e) => {
            return Err(e);
        },
        Ok(()) => {},
    }
    proof {
        assert(tok@ =~= joined_token(iov@));
    }
    Ok(tok)
}

/// Empties the first padding buffer.
fn clear_padding(iov: &mut Vec<IovBuf>)
    ensures
        padding_cleared(old(iov)@, final(iov)@),
{
    let mut i: usize = 0;
    while i < iov.len()
        invariant
            i <= iov.len(),
            iov@ == old(iov)@,
            forall|k: int| 0 <= k < i ==> (#[trigger] iov@[k]).kind != IovType::Padding,
        decreases iov.len() - i,
    {
        if iov[i].kind == IovType::Padding {
            iov.set(i, IovBuf { kind: IovType::Padding, data: Vec::new() });
            return;
        }
        i = i + 1;
    }
}

/// The buffers after the first padding buffer was emptied.
pub open spec fn padding_cleared(before: Seq<IovBuf>, after: Seq<IovBuf>) -> bool {
    &&& after.len() == before.len()
    &&& forall|i: int|
        0 <= i < before.len() ==> if before[i].kind == IovType::Padding && (forall|k: int|
            0 <= k < i ==> (#[trigger] before[k]).kind != IovType::Padding) {
            with_octets(before[i], Seq::empty(), #[trigger] after[i])
        } else {
            after[i] == before[i]
        }
}

/// What splitting a token into buffers brings: the data buffers must take
/// what stands between header and trailer, and there must be one header and
/// one trailer buffer.
pub open spec fn splits(before: Seq<IovBuf>, tok: Seq<u8>, n: nat, trailer_len: nat) -> bool {
    &&& tok.len() == 32 + n + trailer_len
    &&& has_one(before, IovType::Header)
    &&& data_of(before).len() == n
    &&& has_one(before, IovType::Trailer)
}

/// The kinds of buffers stay.
pub open spec fn kinds_kept(before: Seq<IovBuf>, after: Seq<IovBuf>) -> bool {
    &&& after.len() == before.len()
    &&& forall|i: int| 0 <= i < before.len() ==> (#[trigger] after[i]).kind == before[i].kind
}

/// The buffers hold a token whose data is `n` octets long.
pub open spec fn token_written(
    before: Seq<IovBuf>,
    after: Seq<IovBuf>,
    tok: Seq<u8>,
    n: nat,
) -> bool {
    exists|a: Seq<IovBuf>, b: Seq<IovBuf>, c: Seq<IovBuf>|
        {
            &&& #[trigger] one_written(before, a, IovType::Header, tok.take(32))
            &&& #[trigger] data_written(a, b, tok.subrange(32, (32 + n) as int))
            &&& #[trigger] padding_cleared(b, c)
            &&& one_written(c, after, IovType::Trailer, tok.skip((32 + n) as int))
        }
}

/// What splitting a token into buffers comes to. Where it is refused, what
/// was written up to then stays.
pub open spec fn split_result(
    before: Seq<IovBuf>,
    after: Seq<IovBuf>,
    tok: Seq<u8>,
    n: nat,
    trailer_len: nat,
    r: Result<(), Error>,
) -> bool {
    &&& kinds_kept(before, after)
    &&& if splits(before, tok, n, trailer_len) {
        r is Ok && token_written(before, after, tok, n)
    } else {
        r == Err::<(), Error>(Error::Truncated)
    }
}

/// Splits a token into its buffers.
pub fn split_wrap_token(
    iov: &mut Vec<IovBuf>,
    tok: &[u8],
    n: usize,
    trailer_len: usize,
) -> (r: Result<(), Error>)
    ensures
        split_result(old(iov)@, final(iov)@, tok@, n as nat, trailer_len as nat, r),
{
    let ghost v0 = iov@;
    if tok.len() < 32 || tok.len() - 32 < n || tok.len() - 32 - n != trailer_len {
        return Err(Error::Truncated);
    }
    let head = slice_subrange(tok, 0, 32);
    proof {
        assert(head@ =~= tok@.take(32));
    }
    match write_iov_one(iov, IovType::Header, head) {
        Err(e) => {
            return Err(e);
        },
        Ok(()) => {},
    }
    let ghost v1 = iov@;
    proof {
        lemma_data_kept(v0, v1, IovType::Header);
    }
    match write_iov_data(iov, slice_subrange(tok, 32, 32 + n)) {
        Err(e) => {
            return Err(e);
        },
        Ok(()) => {},
    }
    let ghost v2 = iov@;
    clear_padding(iov);
    let ghost v3 = iov@;
    let tail = slice_subrange(tok, 32 + n, tok.len());
    proof {
        assert(tail@ =~= tok@.skip(32 + n));
        lemma_one_kept(v0, v1, IovType::Trailer);
        lemma_one_kept(v1, v2, IovType::Trailer);
        lemma_one_kept(v2, v3, IovType::Trailer);
    }
    match write_iov_one(iov, IovType::Trailer, tail) {
        Err(e) => {
            return Err(e);
        },
        Ok(()) => {},
    }
    proof {
        assert(one_written(v0, v1, IovType::Header, tok@.take(32)));
        assert(data_written(v1, v2, tok@.subrange(32, 32 + n)));
        assert(padding_cleared(v2, v3));
    }
    Ok(())
}

/// Buffers of the same kinds have one of a kind together.
pub proof fn lemma_one_kept(a: Seq<IovBuf>, b: Seq<IovBuf>, kind: IovType)
    requires
        a.len() == b.len(),
        forall|i: int| 0 <= i < a.len() ==> (#[trigger] b[i]).kind == a[i].kind,
    ensures
        has_one(a, kind) == has_one(b, kind),
        has_kind(a, kind) == has_kind(b, kind),
        forall|i: int| only_one(a, kind, i) == only_one(b, kind, i),
{
    assert forall|i: int| only_one(a, kind, i) == only_one(b, kind, i) by {
        if 0 <= i < a.len() {
            assert(b[i].kind == a[i].kind);
            assert forall|j: int| 0 <= j < a.len() implies (#[trigger] a[j]).kind == b[j].kind by {}
        }
    }
    if has_one(a, kind) {
        let i = choose|i: int| only_one(a, kind, i);
        assert(only_one(b, kind, i));
    }
    if has_one(b, kind) {
        let i = choose|i: int| only_one(b, kind, i);
        assert(only_one(a, kind, i));
    }
    if has_kind(a, kind) {
        let i = choose|i: int| 0 <= i < a.len() && (#[trigger] a[i]).kind == kind;
        assert(b[i].kind == kind);
    }
    if has_kind(b, kind) {
        let i = choose|i: int| 0 <= i < b.len() && (#[trigger] b[i]).kind == kind;
        assert(a[i].kind == kind);
    }
}

/// Writing a buffer that is not data leaves the data as it is.
pub proof fn lemma_data_kept(a: Seq<IovBuf>, b: Seq<IovBuf>, kind: IovType)
    requires
        a.len() == b.len(),
        forall|i: int|
            0 <= i < a.len() ==> (#[trigger] b[i]).kind == a[i].kind && (a[i].kind == IovType::Data
                ==> b[i] == a[i]),
    ensures
        data_of(a) == data_of(b),
    decreases a.len(),
{
    if a.len() > 0 {
        let x = a.drop_last();
        let y = b.drop_last();
        assert forall|i: int| 0 <= i < x.len() implies (#[trigger] y[i]).kind == x[i].kind && (
        x[i].kind == IovType::Data ==> y[i] == x[i]) by {
            assert(b[i].kind == a[i].kind);
        }
        lemma_data_kept(x, y, kind);
        assert(b[a.len() - 1].kind == a[a.len() - 1].kind);
    }
}

/// What stands in the buffers into which a token was split.
pub proof fn lemma_written_parts(
    before: Seq<IovBuf>,
    after: Seq<IovBuf>,
    tok: Seq<u8>,
    n: nat,
    trailer_len: nat,
)
    requires
        splits(before, tok, n, trailer_len),
        token_written(before, after, tok, n),
    ensures
        kinds_kept(before, after),
        has_one(after, IovType::Header),
        has_one(after, IovType::Trailer),
        has_kind(after, IovType::Data) == has_kind(before, IovType::Data),
        one_of(after, IovType::Header) == tok.take(32),
        data_of(after) == tok.subrange(32, (32 + n) as int),
        one_of(after, IovType::Padding) == Seq::<u8>::empty(),
        one_of(after, IovType::Trailer) == tok.skip((32 + n) as int),
        forall|i: int|
            0 <= i < before.len() && before[i].kind == IovType::SignOnly ==> #[trigger] after[i]
                == before[i],
        forall|i: int|
            0 <= i < before.len() && before[i].kind == IovType::Data ==> (#[trigger] after[
                i
            ]).data@.len() == before[i].data@.len(),
{
    let mid = tok.subrange(32, (32 + n) as int);
    let (a, b, c) = choose|a: Seq<IovBuf>, b: Seq<IovBuf>, c: Seq<IovBuf>|
        {
            &&& #[trigger] one_written(before, a, IovType::Header, tok.take(32))
            &&& #[trigger] data_written(a, b, mid)
            &&& #[trigger] padding_cleared(b, c)
            &&& one_written(c, after, IovType::Trailer, tok.skip((32 + n) as int))
        };
    lemma_data_kept(before, a, IovType::Header);
    assert(forall|i: int| 0 <= i < a.len() ==> (#[trigger] b[i]).kind == a[i].kind);
    assert(forall|i: int| 0 <= i < b.len() ==> (#[trigger] c[i]).kind == b[i].kind);
    assert(forall|i: int| 0 <= i < c.len() ==> (#[trigger] after[i]).kind == c[i].kind);
    law_written_data_reads_back(a, b, mid);
    lemma_data_kept(b, c, IovType::Padding);
    lemma_data_kept(c, after, IovType::Trailer);
    assert(data_of(after) == mid);
    assert forall|i: int| 0 <= i < before.len() implies (#[trigger] after[i]).kind
        == before[i].kind by {
        assert(a[i].kind == before[i].kind);
        assert(b[i].kind == a[i].kind);
        assert(c[i].kind == b[i].kind);
    }
    lemma_one_kept(before, after, IovType::Header);
    lemma_one_kept(before, after, IovType::Trailer);
    lemma_one_kept(before, after, IovType::Padding);
    lemma_one_kept(before, b, IovType::Padding);
    let h = choose|i: int| only_one(after, IovType::Header, i);
    assert(only_one(after, IovType::Header, h));
    assert(before[h].kind == IovType::Header);
    assert(a[h].data@ == tok.take(32));
    assert(b[h] == a[h]);
    assert(c[h] == b[h]);
    assert(after[h] == c[h]);
    let t = choose|i: int| only_one(after, IovType::Trailer, i);
    assert(only_one(after, IovType::Trailer, t));
    assert(before[t].kind == IovType::Trailer);
    assert(b[t].kind == a[t].kind);
    assert(c[t].kind == IovType::Trailer);
    assert(after[t].data@ == tok.skip((32 + n) as int));
    if has_one(after, IovType::Padding) {
        let p = choose|i: int| only_one(after, IovType::Padding, i);
        assert(only_one(b, IovType::Padding, p));
        assert forall|k: int| 0 <= k < p implies (#[trigger] b[k]).kind != IovType::Padding by {}
        assert(c[p].data@ =~= Seq::<u8>::empty());
        assert(after[p] == c[p]);
    }
    assert(one_of(after, IovType::Padding) =~= Seq::<u8>::empty());
    lemma_one_kept(before, after, IovType::Data);
    assert forall|i: int|
        0 <= i < before.len() && before[i].kind == IovType::SignOnly implies #[trigger] after[i]
        == before[i] by {
        assert(a[i] == before[i]);
        assert(b[i] == a[i]);
        assert(c[i] == b[i]);
    }
    assert forall|i: int|
        0 <= i < before.len() && before[i].kind == IovType::Data implies (#[trigger] after[
        i
    ]).data@.len() == before[i].data@.len() by {
        assert(a[i] == before[i]);
        assert(a.take(a.len() as int) =~= a);
        lemma_data_grows(a, i + 1, a.len() as int);
        assert(a.take(i + 1).drop_last() =~= a.take(i));
        assert(a.take(i + 1).last() == a[i]);
        assert(b[i].data@.len() == a[i].data@.len());
        assert(c[i] == b[i]);
    }
}

/// A token split into buffers is joined to the same token again.
pub proof fn law_split_token_joins(
    before: Seq<IovBuf>,
    after: Seq<IovBuf>,
    tok: Seq<u8>,
    n: nat,
    trailer_len: nat,
)
    requires
        splits(before, tok, n, trailer_len),
        token_written(before, after, tok, n),
    ensures
        joined_token(after) == tok,
{
    lemma_written_parts(before, after, tok, n, trailer_len);
    assert(joined_token(after) =~= tok);
}

/// The octets that a checksum covers, buffer by buffer: those signed only as
/// they are, those of data buffers from `src` in order. With them goes how
/// much of `src` was used.
pub open spec fn mac_row(v: Seq<IovBuf>, src: Seq<u8>) -> Option<(Seq<u8>, int)>
    decreases v.len(),
{
    if v.len() == 0 {
        Some((Seq::empty(), 0))
    } else {
        match mac_row(v.drop_last(), src) {
            None => None,
            Some((m, off)) => match v.last().kind {
                IovType::Data => {
                    let n = v.last().data@.len();
                    if off + n <= src.len() {
                        Some((m + src.subrange(off, off + n), off + n))
                    } else {
                        None
                    }
                },
                IovType::SignOnly => Some((m + v.last().data@, off)),
                _ => Some((m, off)),
            },
        }
    }
}

/// A row fails where a shorter one in front of it does.
proof fn lemma_mac_row_prefix(v: Seq<IovBuf>, src: Seq<u8>, i: int)
    requires
        0 <= i <= v.len(),
        mac_row(v.take(i), src) is None,
    ensures
        mac_row(v, src) is None,
    decreases v.len() - i,
{
    if i < v.len() {
        assert(v.take(i + 1).drop_last() =~= v.take(i));
        lemma_mac_row_prefix(v, src, i + 1);
    } else {
        assert(v.take(i) =~= v);
    }
}

/// Adds the octets that a checksum covers to `out`, data from
/// `src[from..]`. The result is the place behind what was used of `src`.
fn append_mac_row(iov: &Vec<IovBuf>, src: &[u8], from: usize, out: &mut Vec<u8>) -> (r: Option<
    usize,
>)
    requires
        from <= src.len(),
    ensures
        match mac_row(iov@, src@.skip(from as int)) {
            Some(m) => r matches Some(p) && p == from + m.1 && p <= src.len() && final(out)@ == old(
                out,
            )@ + m.0,
            None => r is None,
        },
{
    let ghost before = out@;
    let ghost s = src@.skip(from as int);
    let mut off: usize = from;
    let mut i: usize = 0;
    proof {
        assert(iov@.take(0) =~= Seq::<IovBuf>::empty());
        assert(before + Seq::<u8>::empty() =~= before);
    }
    while i < iov.len()
        invariant
            i <= iov.len(),
            from <= off <= src.len(),
            s == src@.skip(from as int),
            mac_row(iov@.take(i as int), s) matches Some(m) && m.1 == off - from && out@ == before
                + m.0,
        decreases iov.len() - i,
    {
        let ghost m = mac_row(iov@.take(i as int), s)->0;
        proof {
            assert(iov@.take(i + 1).drop_last() =~= iov@.take(i as int));
            assert(iov@.take(i + 1).last() == iov@[i as int]);
        }
        match iov[i].kind {
            IovType::Data => {
                let n: usize = iov[i].data.len();
                if src.len() - off < n {
                    proof {
                        assert(mac_row(iov@.take(i + 1), s) is None);
                        lemma_mac_row_prefix(iov@, s, i + 1);
                    }
                    return None;
                }
                append(out, slice_subrange(src, off, off + n));
                proof {
                    assert(s.subrange(off - from, off - from + n) =~= src@.subrange(
                        off as int,
                        off + n,
                    ));
                    assert(out@ =~= before + (mac_row(iov@.take(i + 1), s)->0).0);
                }
                off = off + n;
            },
            IovType::SignOnly => {
                append(out, iov[i].data.as_slice());
                proof {
                    assert(out@ =~= before + (mac_row(iov@.take(i + 1), s)->0).0);
                }
            },
            _ => {},
        }
        i = i + 1;
    }
    proof {
        assert(iov@.take(iov@.len() as int) =~= iov@);
    }
    Some(off)
}

/// What the checksum over buffers covers, for keys that sign the ciphertext:
/// a block of zeros, the encrypted confounder, the row of buffers with their
/// data encrypted, and the encrypted header.
pub open spec fn cipher_mac_input(v: Seq<IovBuf>, cipher: Seq<u8>) -> Option<Seq<u8>> {
    if cipher.len() < 16 {
        None
    } else {
        match mac_row(v, cipher.skip(16)) {
            None => None,
            Some((m, off)) => if 16 + off + 16 <= cipher.len() {
                Some(
                    Seq::new(16, |i: int| 0u8) + cipher.take(16) + m + cipher.subrange(
                        16 + off,
                        16 + off + 16,
                    ),
                )
            } else {
                None
            },
        }
    }
}

/// What the checksum over buffers covers, for keys that sign the plaintext:
/// the confounder, the row of buffers, and the header.
pub open spec fn plain_mac_input(
    v: Seq<IovBuf>,
    conf: Seq<u8>,
    plain: Seq<u8>,
    tok_hdr: Seq<u8>,
) -> Option<Seq<u8>> {
    match mac_row(v, plain) {
        None => None,
        Some((m, off)) => Some(conf + m + tok_hdr),
    }
}

/// Makes what the checksum covers, for keys that sign the ciphertext.
pub fn iov_hmac_cipher(iov: &Vec<IovBuf>, cipher: &[u8]) -> (r: Result<Vec<u8>, Error>)
    ensures
        match cipher_mac_input(iov@, cipher@) {
            Some(s) => r matches Ok(v) && v@ == s,
            None => r matches Err(e) && e == Error::Truncated,
        },
{
    if cipher.len() < AES_CONFOUNDER {
        return Err(Error::Truncated);
    }
    let mut m = zeros(16);
    append(&mut m, slice_subrange(cipher, 0, 16));
    match append_mac_row(iov, cipher, 16, &mut m) {
        None => Err(Error::Truncated),
        Some(off) => {
            if cipher.len() - off < 16 {
                return Err(Error::Truncated);
            }
            append(&mut m, slice_subrange(cipher, off, off + 16));
            proof {
                assert(cipher@.subrange(0, 16) =~= cipher@.take(16));
                assert(m@ =~= cipher_mac_input(iov@, cipher@)->0);
            }
            Ok(m)
        },
    }
}

/// Makes what the checksum covers, for keys that sign the plaintext.
pub fn iov_hmac_plain(iov: &Vec<IovBuf>, conf: &[u8], plain: &[u8], tok_hdr: &[u8]) -> (r: Result<
    Vec<u8>,
    Error,
>)
    ensures
        match plain_mac_input(iov@, conf@, plain@, tok_hdr@) {
            Some(s) => r matches Ok(v) && v@ == s,
            None => r matches Err(e) && e == Error::Truncated,
        },
{
    let mut m = copy(conf);
    proof {
        assert(plain@.skip(0) =~= plain@);
    }
    match append_mac_row(iov, plain, 0, &mut m) {
        None => Err(Error::Truncated),
        Some(_) => {
            append(&mut m, tok_hdr);
            Ok(m)
        },
    }
}

/// Whether there is a buffer of this kind.
pub fn has_buffer(iov: &Vec<IovBuf>, kind: IovType) -> (r: bool)
    ensures
        r == has_kind(iov@, kind),
{
    let mut i: usize = 0;
    while i < iov.len()
        invariant
            i <= iov.len(),
            forall|k: int| 0 <= k < i ==> (#[trigger] iov@[k]).kind != kind,
        decreases iov.len() - i,
    {
        if iov[i].kind == kind {
            proof {
                assert(iov@[i as int].kind == kind);
            }
            return true;
        }
        i = i + 1;
    }
    false
}

/// Whether there is data that is signed only.
pub open spec fn has_associated(v: Seq<IovBuf>) -> bool {
    exists|i: int|
        0 <= i < v.len() && (#[trigger] v[i]).kind == IovType::SignOnly && v[i].data@.len() > 0
}

/// Whether there is data that is signed only.
pub fn has_associated_data(iov: &Vec<IovBuf>) -> (r: bool)
    ensures
        r == has_associated(iov@),
{
    let mut i: usize = 0;
    while i < iov.len()
        invariant
            i <= iov.len(),
            forall|k: int|
                0 <= k < i ==> !((#[trigger] iov@[k]).kind == IovType::SignOnly
                    && iov@[k].data@.len() > 0),
        decreases iov.len() - i,
    {
        if iov[i].kind == IovType::SignOnly && iov[i].data.len() > 0 {
            proof {
                assert(iov@[i as int].kind == IovType::SignOnly);
            }
            return true;
        }
        i = i + 1;
    }
    false
}

/// Refuses keys that are not AES.
pub fn require_aes(aes: bool) -> (r: Result<(), Error>)
    ensures
        match r {
            Ok(()) => aes,
            Err(e) => !aes && inner_error(e, "gss wrap_iov aes"@),
        },
{
    if aes {
        Ok(())
    } else {
        Err(inner("gss wrap_iov aes"))
    }
}

/// The flags in the first header buffer.
pub open spec fn first_flags(v: Seq<IovBuf>) -> Option<u8>
    decreases v.len(),
{
    if v.len() == 0 {
        None
    } else if v[0].kind != IovType::Header {
        first_flags(v.skip(1))
    } else if v[0].data@.len() > 2 {
        Some(v[0].data@[2])
    } else {
        None
    }
}

/// Reads the flags in the first header buffer.
pub fn header_flags(iov: &Vec<IovBuf>) -> (r: Result<u8, Error>)
    ensures
        match first_flags(iov@) {
            Some(f) => r == Ok::<u8, Error>(f),
            None => r == Err::<u8, Error>(Error::Truncated),
        },
{
    let mut i: usize = 0;
    proof {
        assert(iov@.skip(0) =~= iov@);
    }
    while i < iov.len()
        invariant
            i <= iov.len(),
            first_flags(iov@) == first_flags(iov@.skip(i as int)),
        decreases iov.len() - i,
    {
        if iov[i].kind == IovType::Header {
            if iov[i].data.len() > 2 {
                return Ok(iov[i].data[2]);
            }
            return Err(Error::Truncated);
        }
        proof {
            assert(iov@.skip(i as int).skip(1) =~= iov@.skip(i + 1));
        }
        i = i + 1;
    }
    Err(Error::Truncated)
}

/// A sealed token in buffers, taken apart.
#[derive(Clone, Debug, PartialEq, Eq)]
pub struct SealedIov {
    /// Token header.
    pub tok_hdr: Vec<u8>,
    /// Flags.
    pub flags: u8,
    /// Length of padding.
    pub ec: u16,
    /// Sequence number.
    pub seq: u64,
    /// Ciphertext: confounder, data, header.
    pub cipher: Vec<u8>,
    /// Checksum.
    pub mac: Vec<u8>,
}

/// The header of a sealed token in buffers: confounder behind it, sealed, not
/// rotated.
pub open spec fn sealed_header(h: Seq<u8>) -> bool {
    &&& h.len() == 32
    &&& wrap_shape(h)
    &&& sealed(h[2])
}

/// What taking apart a sealed token in buffers brings. `aes` says that the
/// key is an AES key and `hmac_len` how long its checksums are.
pub open spec fn sealed_iov_result(
    c: GssContext,
    v: Seq<IovBuf>,
    aes: bool,
    hmac_len: nat,
    r: Result<SealedIov, Error>,
) -> bool {
    let h = one_of(v, IovType::Header);
    let t = one_of(v, IovType::Trailer);
    if !has_one(v, IovType::Header) || !sealed_header(h) {
        r matches Err(e) && e == Error::Truncated
    } else if by_acceptor(h[2]) != c.initiator {
        r matches Err(e) && e == Error::Integrity
    } else if from_be16(h, 6) != 0 {
        r matches Err(e) && e == Error::Truncated
    } else if c.key_for(h[2]) is None {
        r matches Err(e) && inner_error(e, "gss acceptor subkey"@)
    } else if !aes {
        r matches Err(e) && inner_error(e, "gss wrap_iov aes"@)
    } else if !has_one(v, IovType::Trailer) || t.len() != 16 + hmac_len || !has_kind(
        v,
        IovType::Data,
    ) {
        r matches Err(e) && e == Error::Truncated
    } else {
        r matches Ok(s) && {
            &&& s.tok_hdr@ == h.take(16)
            &&& s.flags == h[2]
            &&& s.ec == from_be16(h, 4)
            &&& s.seq == from_be64(h, 8)
            &&& s.cipher@ == h.skip(16) + data_of(v) + t.take(16)
            &&& s.mac@ == t.skip(16)
        }
    }
}

/// What writing the checksum of buffers that are not sealed comes to; `c`
/// becomes `d` and the buffers `v` become `w`.
pub open spec fn signed_placed(
    c: GssContext,
    d: GssContext,
    v: Seq<IovBuf>,
    w: Seq<IovBuf>,
    mac: Seq<u8>,
    r: Result<(), Error>,
) -> bool {
    let flags = token_flags(c.initiator, false, c.acceptor_subkey is Some);
    if mac.len() > 0xffff {
        r == Err::<(), Error>(Error::Truncated) && d == c && w == v
    } else {
        &&& d == (GssContext { send_seq: c.send_seq.wrapping_add(1), ..c })
        &&& kinds_kept(v, w)
        &&& if has_one(v, IovType::Header) && has_one(v, IovType::Trailer) {
            r is Ok && exists|a: Seq<IovBuf>, b: Seq<IovBuf>|
                {
                    &&& #[trigger] one_written(
                        v,
                        a,
                        IovType::Header,
                        header(flags, mac.len() as u16, 0, c.send_seq),
                    )
                    &&& #[trigger] one_written(a, b, IovType::Trailer, mac)
                    &&& padding_cleared(b, w)
                }
        } else {
            r == Err::<(), Error>(Error::Truncated)
        }
    }
}

/// The octets of the only buffer of a kind.
fn copy_one(iov: &Vec<IovBuf>, kind: IovType) -> (r: Result<Vec<u8>, Error>)
    ensures
        if has_one(iov@, kind) {
            r matches Ok(v) && v@ == one_of(iov@, kind)
        } else {
            r matches Err(e) && e == Error::Truncated
        },
{
    let mut out: Vec<u8> = Vec::new();
    match append_one(iov, kind, &mut out) {
        Err(e) => Err(e),
        Ok(()) => {
            proof {
                assert(out@ =~= one_of(iov@, kind));
            }
            Ok(out)
        },
    }
}

impl GssContext {
    /// Takes a sealed token in buffers apart.
    pub fn open_sealed_iov(&self, iov: &Vec<IovBuf>, aes: bool, hmac_len: usize) -> (r: Result<
        SealedIov,
        Error,
    >)
        requires
            hmac_len <= 0xffff,
        ensures
            sealed_iov_result(*self, iov@, aes, hmac_len as nat, r),
    {
        let hv = match copy_one(iov, IovType::Header) {
            Err(e) => {
                return Err(e);
            },
            Ok(v) => v,
        };
        let h = hv.as_slice();
        if h.len() != 16 + AES_CONFOUNDER {
            return Err(Error::Truncated);
        }
        let flags: u8 = h[2];
        if h[0] != TOK_WRAP[0] || h[1] != TOK_WRAP[1] || flags / 2 % 2 != 1 || h[3] != 0xff {
            return Err(Error::Truncated);
        }
        match check_direction(flags, self.initiator) {
            Err(e) => {
                return Err(e);
            },
            Ok(()) => {},
        }
        if get_be16(h, 6) != 0 {
            return Err(Error::Truncated);
        }
        let ec: u16 = get_be16(h, 4);
        match self.recv_key(flags) {
            Err(e) => {
                return Err(e);
            },
            Ok(_) => {},
        }
        match require_aes(aes) {
            Err(e) => {
                return Err(e);
            },
            Ok(()) => {},
        }
        let tv = match copy_one(iov, IovType::Trailer) {
            Err(e) => {
                return Err(e);
            },
            Ok(v) => v,
        };
        let t = tv.as_slice();
        if t.len() != 16 + hmac_len {
            return Err(Error::Truncated);
        }
        let mut cipher = copy_range(h, 16, h.len());
        match iov_copy_data(iov, &mut cipher) {
            Err(e) => {
                return Err(e);
            },
            Ok(()) => {},
        }
        append(&mut cipher, slice_subrange(t, 0, 16));
        let mac = copy_range(t, 16, t.len());
        let tok_hdr = copy_range(h, 0, 16);
        proof {
            assert(h@.subrange(0, 16) =~= h@.take(16));
            assert(h@.subrange(16, 32) =~= h@.skip(16));
            assert(t@.subrange(0, 16) =~= t@.take(16));
            assert(t@.subrange(16, t@.len() as int) =~= t@.skip(16));
        }
        Ok(SealedIov { tok_hdr, flags, ec, seq: get_be64(h, 8), cipher, mac })
    }

    /// What is signed for buffers that are not sealed.
    pub fn wrap_iov_integ_input(&self, iov: &Vec<IovBuf>) -> (r: Vec<u8>)
        ensures
            r@ == signed_of(iov@) + header(
                token_flags(self.initiator, false, self.acceptor_subkey is Some),
                0,
                0,
                self.send_seq,
            ),
    {
        let mut out: Vec<u8> = Vec::new();
        iov_sign_body(iov, &mut out);
        let h = wrap_header(
            self.initiator,
            false,
            self.acceptor_subkey.is_some(),
            0,
            0,
            self.send_seq,
        );
        append(&mut out, h.as_slice());
        proof {
            assert(out@ =~= signed_of(iov@) + h@);
        }
        out
    }

    /// Writes header and trailer of buffers that are not sealed; the sequence
    /// number goes up where the checksum's length can be written.
    pub fn place_signed(&mut self, iov: &mut Vec<IovBuf>, mac: &[u8]) -> (r: Result<(), Error>)
        ensures
            signed_placed(*old(self), *final(self), old(iov)@, final(iov)@, mac@, r),
    {
        if mac.len() > 0xffff {
            return Err(Error::Truncated);
        }
        let h = wrap_header(
            self.initiator,
            false,
            self.acceptor_subkey.is_some(),
            mac.len() as u16,
            0,
            self.send_seq,
        );
        self.send_seq = self.send_seq.wrapping_add(1);
        let ghost v0 = iov@;
        match write_iov_one(iov, IovType::Header, h.as_slice()) {
            Err(e) => {
                return Err(e);
            },
            Ok(()) => {},
        }
        let ghost v1 = iov@;
        proof {
            lemma_one_kept(v0, v1, IovType::Trailer);
        }
        match write_iov_one(iov, IovType::Trailer, mac) {
            Err(e) => {
                return Err(e);
            },
            Ok(()) => {},
        }
        let ghost v2 = iov@;
        clear_padding(iov);
        proof {
            assert(one_written(v0, v1, IovType::Header, h@));
            assert(one_written(v1, v2, IovType::Trailer, mac@));
        }
        Ok(())
    }
}

/// The data of buffers is that of the data buffers, in order; what is signed is
/// that and what is signed only, in order. Other buffers add to neither.
pub proof fn law_buffers_add_their_octets(v: Seq<IovBuf>, b: IovBuf)
    ensures
        data_of(v.push(b)) == if b.kind == IovType::Data {
            data_of(v) + b.data@
        } else {
            data_of(v)
        },
        signed_of(v.push(b)) == if b.kind == IovType::Data || b.kind == IovType::SignOnly {
            signed_of(v) + b.data@
        } else {
            signed_of(v)
        },
{
    assert(v.push(b).drop_last() =~= v);
}

/// The flags of buffers are those in the first header buffer, whatever stands in
/// front of it or behind it.
pub proof fn law_first_header_has_the_flags(front: Seq<IovBuf>, h: IovBuf, rest: Seq<IovBuf>)
    requires
        h.kind == IovType::Header,
        forall|i: int| 0 <= i < front.len() ==> (#[trigger] front[i]).kind != IovType::Header,
    ensures
        first_flags(front + seq![h] + rest) == if h.data@.len() > 2 {
            Some(h.data@[2])
        } else {
            None
        },
    decreases front.len(),
{
    let v = front + seq![h] + rest;
    if front.len() == 0 {
        assert(v[0] == h);
    } else {
        let less = front.drop_first();
        assert(v[0] == front[0]);
        assert(v.skip(1) =~= less + seq![h] + rest);
        assert forall|i: int| 0 <= i < less.len() implies (#[trigger] less[i]).kind
            != IovType::Header by {
            assert(less[i] == front[i + 1]);
        }
        law_first_header_has_the_flags(less, h, rest);
    }
}

/// A sealed token in buffers is taken apart where it has a header and a trailer
/// of the right lengths and some data, comes from the other side, is not rotated,
/// and is under an AES key that the context has.
pub proof fn law_sealed_buffers_are_taken_apart(
    c: GssContext,
    v: Seq<IovBuf>,
    aes: bool,
    hmac_len: nat,
    r: Result<SealedIov, Error>,
)
    requires
        sealed_iov_result(c, v, aes, hmac_len, r),
    ensures
        r is Ok ==> aes && has_one(v, IovType::Header) && has_one(v, IovType::Trailer) && has_kind(
            v,
            IovType::Data,
        ) && one_of(v, IovType::Header).len() == 32 && one_of(v, IovType::Trailer).len() == 16
            + hmac_len && by_acceptor(one_of(v, IovType::Header)[2]) == c.initiator && from_be16(
            one_of(v, IovType::Header),
            6,
        ) == 0 && c.key_for(one_of(v, IovType::Header)[2]) is Some,
        r matches Ok(s) ==> s.tok_hdr@ + s.cipher@ + s.mac@ == one_of(v, IovType::Header)
            + data_of(v) + one_of(v, IovType::Trailer),
{
    if let Ok(s) = r {
        let h = one_of(v, IovType::Header);
        let t = one_of(v, IovType::Trailer);
        assert(h.take(16) + (h.skip(16) + data_of(v) + t.take(16)) + t.skip(16) =~= h + data_of(v)
            + t);
    }
}

} // verus!
