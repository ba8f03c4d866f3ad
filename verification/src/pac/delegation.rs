//! What a PAC says by its buffers, and its delegation buffer on one more hop.

use crate::ad::update_delegation_info;
use crate::bytes::copy;
use crate::error::Error;
use crate::pac::{
    buffers_view, lemma_filter_step, push_buffer, BufferView, ClientInfo, DelegationInfo,
    PacBuffer, PacFacts, PAC_CLIENT_INFO, PAC_DELEGATION_INFO,
};
use vstd::prelude::*;

verus! {

/// The buffer at `i` is the only one of its kind.
pub open spec fn only_of_kind(bs: Seq<BufferView>, kind: u32, i: int) -> bool {
    &&& 0 <= i < bs.len()
    &&& bs[i].kind == kind
    &&& forall|j: int| 0 <= j < bs.len() && (#[trigger] bs[j]).kind == kind ==> j == i
}

/// The place of the only buffer of a kind; there is none where the kind is
/// missing or repeated.
pub fn unique_buffer(bs: &[PacBuffer], kind: u32) -> (r: Option<usize>)
    ensures
        match r {
            Some(i) => i < bs.len() && only_of_kind(buffers_view(bs@), kind, i as int),
            None => forall|i: int| !#[trigger] only_of_kind(buffers_view(bs@), kind, i),
        },
{
    let ghost v = buffers_view(bs@);
    let mut found: Option<usize> = None;
    let mut k: usize = 0;
    while k < bs.len()
        invariant
            k <= bs.len(),
            v == buffers_view(bs@),
            match found {
                Some(f) => f < k && v[f as int].kind == kind && forall|j: int|
                    0 <= j < k && (#[trigger] v[j]).kind == kind ==> j == f,
                None => forall|j: int| 0 <= j < k ==> (#[trigger] v[j]).kind != kind,
            },
        decreases bs.len() - k,
    {
        assert(v[k as int].kind == bs@[k as int].kind);
        if bs[k].kind == kind {
            if found.is_some() {
                return None;
            }
            found = Some(k);
        }
        k = k + 1;
    }
    found
}

/// What the only buffer of a kind holds; there is none where the kind is missing
/// or repeated.
pub fn sole_data(bs: &[PacBuffer], kind: u32) -> (r: Option<Vec<u8>>)
    ensures
        match r {
            Some(v) => exists|i: int| #[trigger]
                only_of_kind(buffers_view(bs@), kind, i) && v@ == bs@[i].data@,
            None => forall|i: int| !#[trigger] only_of_kind(buffers_view(bs@), kind, i),
        },
{
    match unique_buffer(bs, kind) {
        Some(i) => {
            assert(only_of_kind(buffers_view(bs@), kind, i as int));
            Some(copy(bs[i].data.as_slice()))
        },
        None => None,
    }
}

/// `d` is what `read` makes of the only buffer of a kind.
pub open spec fn buffer_read<T, R: Fn(&Vec<u8>) -> Option<T>>(
    bs: Seq<PacBuffer>,
    kind: u32,
    read: R,
    d: Option<T>,
) -> bool {
    if exists|i: int| only_of_kind(buffers_view(bs), kind, i) {
        exists|i: int|
            only_of_kind(buffers_view(bs), kind, i) && #[trigger] call_ensures(
                read,
                (&bs[i].data,),
                d,
            )
    } else {
        d is None
    }
}

fn read_buffer<T, R: Fn(&Vec<u8>) -> Option<T>>(bs: &[PacBuffer], kind: u32, read: &R) -> (d:
    Option<T>)
    requires
        forall|x: Vec<u8>| #[trigger] call_requires(*read, (&x,)),
    ensures
        buffer_read(bs@, kind, *read, d),
{
    match unique_buffer(bs, kind) {
        Some(i) => {
            let d = read(&bs[i].data);
            assert(call_ensures(*read, (&bs@[i as int].data,), d));
            d
        },
        None => None,
    }
}

/// What decisions read of a PAC. `read_client` and `read_delegation` read a buffer,
/// where it is well formed.
pub fn pac_facts<
    C: Fn(&Vec<u8>) -> Option<ClientInfo>,
    D: Fn(&Vec<u8>) -> Option<DelegationInfo>,
>(bs: &[PacBuffer], read_client: &C, read_delegation: &D) -> (r: PacFacts)
    requires
        forall|x: Vec<u8>| #[trigger] call_requires(*read_client, (&x,)),
        forall|x: Vec<u8>| #[trigger] call_requires(*read_delegation, (&x,)),
    ensures
        buffer_read(bs@, PAC_CLIENT_INFO, *read_client, r.client_info),
        buffer_read(bs@, PAC_DELEGATION_INFO, *read_delegation, r.delegation),
{
    PacFacts {
        client_info: read_buffer(bs, PAC_CLIENT_INFO, read_client),
        delegation: read_buffer(bs, PAC_DELEGATION_INFO, read_delegation),
    }
}

/// The buffers of other kinds than this, in order.
pub open spec fn without_kind(bs: Seq<BufferView>, kind: u32) -> Seq<BufferView> {
    bs.filter(|b: BufferView| b.kind != kind)
}

/// The buffers with the delegation buffer set to `info`: those before are taken
/// out, and the new one comes last.
pub open spec fn with_delegation(bs: Seq<BufferView>, info: Seq<u8>) -> Seq<BufferView> {
    without_kind(bs, PAC_DELEGATION_INFO).push(
        BufferView { kind: PAC_DELEGATION_INFO, data: info },
    )
}

/// Sets the delegation buffer to `info`: those before are taken out, and the new
/// one comes last.
pub fn replace_delegation(bs: &[PacBuffer], info: Vec<u8>) -> (r: Vec<PacBuffer>)
    ensures
        buffers_view(r@) == buffers_view(bs@).filter(
            |b: BufferView| b.kind != PAC_DELEGATION_INFO,
        ).push(BufferView { kind: PAC_DELEGATION_INFO, data: info@ }),
        buffers_view(r@) == with_delegation(buffers_view(bs@), info@),
{
    let ghost orig = buffers_view(bs@);
    let ghost keep = |b: BufferView| b.kind != PAC_DELEGATION_INFO;
    let mut out: Vec<PacBuffer> = Vec::new();
    let mut i: usize = 0;
    proof {
        assert(orig.take(0).filter(keep) =~= buffers_view(out@)) by {
            reveal(Seq::filter);
        }
    }
    while i < bs.len()
        invariant
            i <= bs.len(),
            orig == buffers_view(bs@),
            keep == (|b: BufferView| b.kind != PAC_DELEGATION_INFO),
            buffers_view(out@) == orig.take(i as int).filter(keep),
        decreases bs.len() - i,
    {
        proof {
            lemma_filter_step(orig, i as int, keep);
            assert(orig[i as int] == bs@[i as int]@);
        }
        if bs[i].kind != PAC_DELEGATION_INFO {
            push_buffer(
                &mut out,
                PacBuffer { kind: bs[i].kind, data: copy(bs[i].data.as_slice()) },
            );
        }
        i = i + 1;
    }
    proof {
        assert(orig.take(i as int) =~= orig);
    }
    push_buffer(&mut out, PacBuffer { kind: PAC_DELEGATION_INFO, data: info });
    out
}

/// `d` is what the delegation buffer says: `read` reads it where it is the only
/// one.
pub open spec fn delegation_read<R: Fn(&Vec<u8>) -> Result<DelegationInfo, Error>>(
    bs: Seq<PacBuffer>,
    read: R,
    d: Result<Option<DelegationInfo>, Error>,
) -> bool {
    if exists|i: int| only_of_kind(buffers_view(bs), PAC_DELEGATION_INFO, i) {
        exists|i: int, x: Result<DelegationInfo, Error>|
            {
                &&& only_of_kind(buffers_view(bs), PAC_DELEGATION_INFO, i)
                &&& #[trigger] call_ensures(read, (&bs[i].data,), x)
                &&& match x {
                    Ok(v) => d == Ok::<Option<DelegationInfo>, Error>(Some(v)),
                    Err(e) => d == Err::<Option<DelegationInfo>, Error>(e),
                }
            }
    } else {
        d == Ok::<Option<DelegationInfo>, Error>(None)
    }
}

/// `info` is the delegation after one more hop: the new target, and the service
/// that delegated behind those before it.
pub open spec fn hop_added(
    before: Option<DelegationInfo>,
    target: String,
    hop: String,
    info: DelegationInfo,
) -> bool {
    &&& info.proxy_target == target
    &&& info.transited_services@ == (match before {
        Some(d) => d.transited_services@,
        None => Seq::empty(),
    }).push(hop)
}

/// What comes of one more hop whose delegation before was read.
pub open spec fn hop_written<N: Fn(&DelegationInfo) -> Vec<u8>>(
    bs: Seq<PacBuffer>,
    before: Option<DelegationInfo>,
    target: String,
    hop: String,
    write: N,
    v: Seq<PacBuffer>,
) -> bool {
    exists|info: DelegationInfo, o: Vec<u8>|
        {
            &&& hop_added(before, target, hop, info)
            &&& #[trigger] call_ensures(write, (&info,), o)
            &&& buffers_view(v) == with_delegation(buffers_view(bs), o@)
        }
}

/// What comes of one more hop.
pub open spec fn extended_result<
    R: Fn(&Vec<u8>) -> Result<DelegationInfo, Error>,
    N: Fn(&DelegationInfo) -> Vec<u8>,
>(
    bs: Seq<PacBuffer>,
    target: String,
    hop: String,
    read: R,
    write: N,
    r: Result<Vec<PacBuffer>, Error>,
) -> bool {
    exists|d: Result<Option<DelegationInfo>, Error>| #[trigger]
        delegation_read(bs, read, d) && (match d {
            Err(e) => r matches Err(x) && x == e,
            Ok(before) => r matches Ok(v) && hop_written(bs, before, target, hop, write, v@),
        })
}

/// The PAC after one more hop: its delegation buffer names the new target, and
/// the service that delegated behind those before it.
pub fn extend_delegation<
    R: Fn(&Vec<u8>) -> Result<DelegationInfo, Error>,
    N: Fn(&DelegationInfo) -> Vec<u8>,
>(bs: &[PacBuffer], target: String, hop: String, read: &R, write: &N) -> (r: Result<
    Vec<PacBuffer>,
    Error,
>)
    requires
        forall|x: Vec<u8>| #[trigger] call_requires(*read, (&x,)),
        forall|d: DelegationInfo| #[trigger] call_requires(*write, (&d,)),
    ensures
        extended_result(bs@, target, hop, *read, *write, r),
{
    let d: Result<Option<DelegationInfo>, Error> = match unique_buffer(bs, PAC_DELEGATION_INFO) {
        None => Ok(None),
        Some(i) => {
            let x = read(&bs[i].data);
            assert(call_ensures(*read, (&bs@[i as int].data,), x));
            match x {
                Ok(v) => Ok(Some(v)),
                Err(e) => Err(e),
            }
        },
    };
    assert(delegation_read(bs@, *read, d));
    match d {
        Err(e) => Err(e),
        Ok(before) => {
            let info = update_delegation_info(before, target, hop);
            let o = write(&info);
            assert(call_ensures(*write, (&info,), o));
            let v = replace_delegation(bs, o);
            assert(hop_written(bs@, before, target, hop, *write, v@));
            Ok(v)
        },
    }
}

/// After one more hop there is just one delegation buffer, and every other buffer
/// is there as it was.
pub proof fn law_one_delegation_is_left(bs: Seq<BufferView>, info: Seq<u8>)
    ensures
        only_of_kind(
            with_delegation(bs, info),
            PAC_DELEGATION_INFO,
            with_delegation(bs, info).len() - 1,
        ),
        forall|b: BufferView|
            b.kind != PAC_DELEGATION_INFO ==> (#[trigger] with_delegation(bs, info).contains(b)
                <==> bs.contains(b)),
{
    let keep = |b: BufferView| b.kind != PAC_DELEGATION_INFO;
    let w = with_delegation(bs, info);
    assert forall|j: int| 0 <= j < w.len() && (#[trigger] w[j]).kind == PAC_DELEGATION_INFO implies j
        == w.len() - 1 by {
        if j < w.len() - 1 {
            assert(w[j] == bs.filter(keep)[j]);
            bs.lemma_filter_pred(keep, j);
        }
    }
    assert forall|b: BufferView| b.kind != PAC_DELEGATION_INFO implies (#[trigger] w.contains(b)
        <==> bs.contains(b)) by {
        if w.contains(b) {
            let j = choose|j: int| 0 <= j < w.len() && w[j] == b;
            assert(w[j] == bs.filter(keep)[j]);
            bs.lemma_filter_contains_rev(keep, b);
        }
        if bs.contains(b) {
            let i = choose|i: int| 0 <= i < bs.len() && bs[i] == b;
            bs.lemma_filter_contains(keep, i);
            let j = choose|j: int| 0 <= j < bs.filter(keep).len() && bs.filter(keep)[j] == b;
            assert(w[j] == b);
        }
    }
}

/// A buffer counts where it is the only one of its kind: with none, or with two,
/// there is nothing to read.
pub proof fn law_only_a_single_buffer_is_read<T, R: Fn(&Vec<u8>) -> Option<T>>(
    bs: Seq<PacBuffer>,
    kind: u32,
    read: R,
    d: Option<T>,
    i: int,
    j: int,
)
    requires
        buffer_read(bs, kind, read, d),
    ensures
        (forall|k: int| 0 <= k < bs.len() ==> (#[trigger] bs[k]).kind != kind) ==> d is None,
        0 <= i < j < bs.len() && bs[i].kind == kind && bs[j].kind == kind ==> d is None,
{
    let v = buffers_view(bs);
    if exists|k: int| only_of_kind(v, kind, k) {
        let k = choose|k: int| only_of_kind(v, kind, k);
        assert(v[k].kind == bs[k].kind);
        if 0 <= i < j < bs.len() {
            assert(v[i].kind == bs[i].kind && v[j].kind == bs[j].kind);
        }
    }
}

/// One more hop names the new target and puts the service that delegated behind
/// those before it.
pub proof fn law_hop_is_put_behind(
    before: Option<DelegationInfo>,
    target: String,
    hop: String,
    info: DelegationInfo,
)
    requires
        hop_added(before, target, hop, info),
    ensures
        info.proxy_target == target,
        info.transited_services@.len() > 0 && info.transited_services@.last() == hop,
        before matches Some(d) ==> info.transited_services@.drop_last() == d.transited_services@,
        before is None ==> info.transited_services@.len() == 1,
{
    if let Some(d) = before {
        assert(d.transited_services@.push(hop).drop_last() =~= d.transited_services@);
    }
}

} // verus!
