//! Security contexts: channel bindings, the initial checksum, and the window
//! of sequence numbers.

use crate::bytes::{
    append, be32, copy_range, from_be32, from_le16, from_le32, get_be32, get_le16, get_le32, le16,
    le32, lemma_be32_round_trip, lemma_le32_round_trip, put_le16, put_le32, slice_eq, zeros,
};
use crate::gss::error::{inner, inner_error, Error};
use crate::gss::oid::{
    gss_unwrap_app, gss_wrap_app, oid_and_rest, wrapped_app, GSS_CHECKSUM_TYPE, GSS_C_CHANNEL_BOUND,
    GSS_C_CONF, GSS_C_DCE, GSS_C_DELEG, GSS_C_INTEG, GSS_C_MUTUAL, GSS_C_PROT_READY, GSS_C_REPLAY,
    GSS_C_SEQUENCE, GSS_C_TRANS,
};
use crate::gss::spnego::{TOK_AP_REP, TOK_AP_REQ};
use crate::msg::EncryptionKey;
use crate::name::PrincipalName;
use crate::outside::{md5, md5_digest, random_octets};
use crate::store::AES256_CTS_HMAC_SHA1_96;
use vstd::prelude::*;
use vstd::slice::slice_subrange;
use vstd::string::*;

verus! {

/// Channel bindings.
#[derive(Clone, Debug, PartialEq, Eq)]
pub struct ChannelBindings {
    /// Initiator address type.
    pub initiator_addrtype: u32,
    /// Initiator address octets.
    pub initiator_address: Vec<u8>,
    /// Acceptor address type.
    pub acceptor_addrtype: u32,
    /// Acceptor address octets.
    pub acceptor_address: Vec<u8>,
    /// Application data.
    pub application_data: Vec<u8>,
}

impl Default for ChannelBindings {
    fn default() -> (r: ChannelBindings)
        ensures
            r.initiator_addrtype == 0,
            r.initiator_address@.len() == 0,
            r.acceptor_addrtype == 0,
            r.acceptor_address@.len() == 0,
            r.application_data@.len() == 0,
    {
        ChannelBindings {
            initiator_addrtype: 0,
            initiator_address: Vec::new(),
            acceptor_addrtype: 0,
            acceptor_address: Vec::new(),
            application_data: Vec::new(),
        }
    }
}

/// The length field for `n` octets; one too great is written as the greatest.
pub open spec fn length32(n: nat) -> u32 {
    if n <= u32::MAX {
        n as u32
    } else {
        u32::MAX
    }
}

/// Octets behind their length.
pub open spec fn counted(s: Seq<u8>) -> Seq<u8> {
    le32(length32(s.len())) + s
}

/// Adds octets behind their length.
fn put_counted(out: &mut Vec<u8>, b: &[u8])
    ensures
        final(out)@ == old(out)@ + counted(b@),
{
    let n: u32 = if (b.len() as u64) <= 0xffff_ffff {
        b.len() as u32
    } else {
        u32::MAX
    };
    put_le32(out, n);
    append(out, b);
    proof {
        assert(final(out)@ =~= old(out)@ + counted(b@));
    }
}

impl ChannelBindings {
    /// The octets that are hashed.
    pub open spec fn encoding(&self) -> Seq<u8> {
        le32(self.initiator_addrtype) + counted(self.initiator_address@) + le32(
            self.acceptor_addrtype,
        ) + counted(self.acceptor_address@) + counted(self.application_data@)
    }

    /// The hash of channel bindings; zeros where there are none.
    pub open spec fn spec_hash(cb: Option<&ChannelBindings>) -> Seq<u8> {
        match cb {
            Some(c) => md5_digest(c.encoding()),
            None => Seq::new(16, |i: int| 0u8),
        }
    }

    /// The MD5 hash of channel bindings; zeros where there are none.
    pub fn bnd_hash(cb: Option<&ChannelBindings>) -> (r: Vec<u8>)
        ensures
            r@ == ChannelBindings::spec_hash(cb),
            r@.len() == 16,
    {
        match cb {
            None => zeros(16),
            Some(c) => {
                let mut buf: Vec<u8> = Vec::new();
                put_le32(&mut buf, c.initiator_addrtype);
                put_counted(&mut buf, c.initiator_address.as_slice());
                put_le32(&mut buf, c.acceptor_addrtype);
                put_counted(&mut buf, c.acceptor_address.as_slice());
                put_counted(&mut buf, c.application_data.as_slice());
                proof {
                    assert(buf@ =~= c.encoding());
                }
                md5(buf.as_slice())
            },
        }
    }
}

/// Bindings whose parts can be counted are told apart by what is hashed.
pub proof fn law_encoding_tells_bindings_apart(a: ChannelBindings, b: ChannelBindings)
    requires
        a.encoding() == b.encoding(),
        a.initiator_address@.len() <= u32::MAX,
        a.acceptor_address@.len() <= u32::MAX,
        a.application_data@.len() <= u32::MAX,
        b.initiator_address@.len() <= u32::MAX,
        b.acceptor_address@.len() <= u32::MAX,
        b.application_data@.len() <= u32::MAX,
    ensures
        a.initiator_addrtype == b.initiator_addrtype,
        a.initiator_address@ == b.initiator_address@,
        a.acceptor_addrtype == b.acceptor_addrtype,
        a.acceptor_address@ == b.acceptor_address@,
        a.application_data@ == b.application_data@,
{
    lemma_counted_prefix(
        a.initiator_addrtype,
        a.initiator_address@,
        le32(a.acceptor_addrtype) + counted(a.acceptor_address@) + counted(a.application_data@),
        b.initiator_addrtype,
        b.initiator_address@,
        le32(b.acceptor_addrtype) + counted(b.acceptor_address@) + counted(b.application_data@),
        a.encoding(),
        b.encoding(),
    );
    lemma_counted_prefix(
        a.acceptor_addrtype,
        a.acceptor_address@,
        counted(a.application_data@),
        b.acceptor_addrtype,
        b.acceptor_address@,
        counted(b.application_data@),
        le32(a.acceptor_addrtype) + counted(a.acceptor_address@) + counted(a.application_data@),
        le32(b.acceptor_addrtype) + counted(b.acceptor_address@) + counted(b.application_data@),
    );
    let x = counted(a.application_data@);
    let y = counted(b.application_data@);
    assert(x.skip(4) =~= a.application_data@);
    assert(y.skip(4) =~= b.application_data@);
}

/// A number and counted octets in front of equal rows are equal themselves.
proof fn lemma_counted_prefix(
    t1: u32,
    s1: Seq<u8>,
    r1: Seq<u8>,
    t2: u32,
    s2: Seq<u8>,
    r2: Seq<u8>,
    w1: Seq<u8>,
    w2: Seq<u8>,
)
    requires
        s1.len() <= u32::MAX,
        s2.len() <= u32::MAX,
        w1 =~= le32(t1) + counted(s1) + r1,
        w2 =~= le32(t2) + counted(s2) + r2,
        w1 == w2,
    ensures
        t1 == t2,
        s1 == s2,
        r1 == r2,
{
    crate::bytes::lemma_le32_round_trip(t1);
    crate::bytes::lemma_le32_round_trip(t2);
    crate::bytes::lemma_le32_round_trip(s1.len() as u32);
    crate::bytes::lemma_le32_round_trip(s2.len() as u32);
    assert(w1.take(4) =~= le32(t1));
    assert(w2.take(4) =~= le32(t2));
    assert(w1.subrange(4, 8) =~= le32(s1.len() as u32));
    assert(w2.subrange(4, 8) =~= le32(s2.len() as u32));
    let n = s1.len() as int;
    assert(s1.len() == s2.len());
    assert(w1.subrange(8, 8 + n) =~= s1);
    assert(w2.subrange(8, 8 + n) =~= s2);
    assert(w1.skip(8 + n) =~= r1);
    assert(w2.skip(8 + n) =~= r2);
}

/// The delegation option of the initial checksum.
pub const KRB5_GSS_FOR_CREDS: u16 = 1;

/// The extension that only another mechanism may send.
pub const GSS_EXTS_FINISHED: u32 = 2;

/// The flags that an initiator may ask for.
pub const INITIATOR_FLAGS: u32 = 0x703e;

/// The initial checksum: channel bindings, flags, and what is delegated.
pub open spec fn initial_checksum(
    cb: Option<&ChannelBindings>,
    flags: u32,
    deleg: Option<Seq<u8>>,
) -> Seq<u8> {
    le32(16) + ChannelBindings::spec_hash(cb) + le32(flags) + (match deleg {
        Some(d) => le16(KRB5_GSS_FOR_CREDS) + le16(
            if d.len() <= u16::MAX {
                d.len() as u16
            } else {
                u16::MAX
            },
        ) + d,
        None => Seq::empty(),
    })
}

/// Makes the initial checksum.
pub fn authenticator_checksum(
    cb: Option<&ChannelBindings>,
    flags: u32,
    deleg: Option<&[u8]>,
) -> (r: Vec<u8>)
    ensures
        r@ == initial_checksum(cb, flags, crate::gss::spnego::slice_view(deleg)),
{
    let mut v: Vec<u8> = Vec::new();
    put_le32(&mut v, 16);
    let h = ChannelBindings::bnd_hash(cb);
    append(&mut v, h.as_slice());
    put_le32(&mut v, flags);
    match deleg {
        Some(d) => {
            put_le16(&mut v, KRB5_GSS_FOR_CREDS);
            let n: u16 = if d.len() <= 0xffff {
                d.len() as u16
            } else {
                u16::MAX
            };
            put_le16(&mut v, n);
            append(&mut v, d);
        },
        None => {},
    }
    proof {
        assert(v@ =~= initial_checksum(cb, flags, crate::gss::spnego::slice_view(deleg)));
    }
    v
}

/// Whether the extensions from `i` on can be skipped: each has a type, a
/// length and that many octets, and none is of the type that is refused.
pub open spec fn extensions_ok(raw: Seq<u8>, i: int) -> bool
    decreases raw.len() - i,
{
    if i >= raw.len() {
        true
    } else if raw.len() - i < 8 || from_be32(raw, i) == GSS_EXTS_FINISHED || raw.len() - i - 8
        < from_be32(raw, i + 4) {
        false
    } else {
        extensions_ok(raw, i + 8 + from_be32(raw, i + 4))
    }
}

/// Skips extensions.
fn skip_extensions(raw: &[u8], from: usize) -> (r: bool)
    requires
        from <= raw.len(),
    ensures
        r == extensions_ok(raw@, from as int),
{
    let mut i: usize = from;
    while i < raw.len()
        invariant
            from <= i <= raw.len(),
            extensions_ok(raw@, from as int) == extensions_ok(raw@, i as int),
        decreases raw.len() - i,
    {
        if raw.len() - i < 8 {
            return false;
        }
        if get_be32(raw, i) == GSS_EXTS_FINISHED {
            return false;
        }
        let n: u32 = get_be32(raw, i + 4);
        if ((raw.len() - i - 8) as u64) < n as u64 {
            return false;
        }
        i = i + 8 + n as usize;
    }
    true
}

/// The checksum of an authenticator.
#[derive(Clone, Debug, PartialEq, Eq)]
pub struct ApChecksum {
    /// Type.
    pub cksumtype: i32,
    /// Octets.
    pub checksum: Vec<u8>,
}

/// The client's bindings in an initial checksum.
pub open spec fn token_bindings(raw: Seq<u8>) -> Seq<u8> {
    raw.subrange(4, 20)
}

/// The bindings of both sides are the same.
pub open spec fn bindings_match(raw: Seq<u8>, acceptor: Option<&ChannelBindings>) -> bool {
    acceptor is Some && token_bindings(raw) == ChannelBindings::spec_hash(acceptor)
}

/// Octets that are not all zero.
pub open spec fn some_set(s: Seq<u8>) -> bool {
    exists|i: int| 0 <= i < s.len() && #[trigger] s[i] != 0
}

/// Whether octets are not all zero.
fn any_set(b: &[u8]) -> (r: bool)
    ensures
        r == some_set(b@),
{
    let mut i: usize = 0;
    while i < b.len()
        invariant
            i <= b.len(),
            forall|k: int| 0 <= k < i ==> #[trigger] b@[k] == 0,
        decreases b.len() - i,
    {
        if b[i] != 0 {
            proof {
                assert(b@[i as int] != 0);
            }
            return true;
        }
        i = i + 1;
    }
    false
}

/// The flags in an initial checksum.
pub open spec fn checksum_flags(raw: Seq<u8>) -> u32 {
    from_le32(raw, 20)
}

/// The initial checksum delegates.
pub open spec fn delegates(raw: Seq<u8>) -> bool {
    raw.len() >= 28 && checksum_flags(raw) & GSS_C_DELEG != 0
}

/// Where the extensions of an initial checksum begin.
pub open spec fn extensions_at(raw: Seq<u8>) -> int {
    if delegates(raw) {
        28 + from_le16(raw, 26)
    } else {
        24
    }
}

/// The refusal of an initial checksum as it is read: bindings that are not
/// whole or do not match, a bad length of bindings, delegated credentials
/// that are cut short or of a wrong kind, what the credentials themselves
/// came to, and bad extensions.
pub open spec fn checksum_refusal(
    raw: Seq<u8>,
    acceptor: Option<&ChannelBindings>,
    delegated: Result<Option<String>, Error>,
    e: Error,
) -> bool {
    if raw.len() < 24 {
        e == Error::ChannelBindings
    } else if from_le32(raw, 0) != 16 {
        inner_error(e, "gss failure"@)
    } else if acceptor is Some && some_set(token_bindings(raw)) && !bindings_match(raw, acceptor) {
        e == Error::ChannelBindings
    } else if delegates(raw) && (raw.len() - 28 < from_le16(raw, 26) || from_le16(raw, 24)
        != KRB5_GSS_FOR_CREDS) {
        inner_error(e, "gss failure"@)
    } else if delegates(raw) && delegated is Err {
        e == delegated->Err_0
    } else {
        inner_error(e, "gss failure"@) && !extensions_ok(raw, extensions_at(raw))
    }
}

/// An initial checksum that is accepted.
pub open spec fn checksum_accepted(
    raw: Seq<u8>,
    acceptor: Option<&ChannelBindings>,
    delegated: Result<Option<String>, Error>,
) -> bool {
    &&& raw.len() >= 24
    &&& from_le32(raw, 0) == 16
    &&& acceptor is Some && some_set(token_bindings(raw)) ==> bindings_match(raw, acceptor)
    &&& delegates(raw) ==> raw.len() - 28 >= from_le16(raw, 26) && from_le16(raw, 24)
        == KRB5_GSS_FOR_CREDS && delegated is Ok
    &&& extensions_ok(raw, extensions_at(raw))
}

/// The context flags that an accepted initial checksum gives.
pub open spec fn granted_flags(
    raw: Seq<u8>,
    acceptor: Option<&ChannelBindings>,
    delegated: Result<Option<String>, Error>,
) -> u32 {
    let a = checksum_flags(raw) & INITIATOR_FLAGS;
    let b = if bindings_match(raw, acceptor) {
        a | GSS_C_CHANNEL_BOUND
    } else {
        a
    };
    if delegates(raw) && delegated matches Ok(Some(_)) {
        b | GSS_C_DELEG
    } else {
        b
    }
}

/// Reads an initial checksum of the mechanism's own type. `delegated` is what
/// the delegated credentials came to.
pub fn read_initial_checksum(
    raw: &[u8],
    acceptor: Option<&ChannelBindings>,
    delegated: Result<Option<String>, Error>,
) -> (r: Result<(u32, Option<String>, bool), Error>)
    ensures
        match r {
            Ok(t) => {
                &&& checksum_accepted(raw@, acceptor, delegated)
                &&& t.0 == granted_flags(raw@, acceptor, delegated)
                &&& t.1 == (if delegates(raw@) {
                    delegated->Ok_0
                } else {
                    None
                })
                &&& t.2 == bindings_match(raw@, acceptor)
            },
            Err(e) => !checksum_accepted(raw@, acceptor, delegated) && checksum_refusal(
                raw@,
                acceptor,
                delegated,
                e,
            ),
        },
{
    if raw.len() < 24 {
        return Err(Error::ChannelBindings);
    }
    if get_le32(raw, 0) != 16 {
        return Err(inner("gss failure"));
    }
    let token_cb = slice_subrange(raw, 4, 20);
    let mut cb_match: bool = false;
    match acceptor {
        Some(local) => {
            let expect = ChannelBindings::bnd_hash(Some(local));
            cb_match = slice_eq(token_cb, expect.as_slice());
            if any_set(token_cb) && !cb_match {
                return Err(Error::ChannelBindings);
            }
        },
        None => {},
    }
    let token_flags: u32 = get_le32(raw, 20);
    let mut flags: u32 = token_flags & INITIATOR_FLAGS;
    if cb_match {
        flags = flags | GSS_C_CHANNEL_BOUND;
    }
    let mut from: usize = 24;
    let mut who: Option<String> = None;
    if raw.len() - 24 >= 4 && token_flags & GSS_C_DELEG != 0 {
        let option_id: u16 = get_le16(raw, 24);
        let option_len: usize = get_le16(raw, 26) as usize;
        if raw.len() - 28 < option_len {
            return Err(inner("gss failure"));
        }
        if option_id != KRB5_GSS_FOR_CREDS {
            return Err(inner("gss failure"));
        }
        match delegated {
            Err(e) => {
                return Err(e);
            },
            Ok(d) => {
                if d.is_some() {
                    flags = flags | GSS_C_DELEG;
                }
                who = d;
            },
        }
        from = 28 + option_len;
    }
    if !skip_extensions(raw, from) {
        return Err(inner("gss failure"));
    }
    Ok((flags, who, cb_match))
}

/// What the checksum of an authenticator comes to. `cbt` says whether the
/// client insists on channel bindings, where that could be read.
pub open spec fn checksum_result(
    cksum: Option<ApChecksum>,
    ap_mutual: bool,
    acceptor: Option<&ChannelBindings>,
    delegated: Result<Option<String>, Error>,
    cbt: Result<bool, Error>,
    r: Result<(u32, Option<String>), Error>,
) -> bool {
    let own = cksum matches Some(c) && c.cksumtype == GSS_CHECKSUM_TYPE;
    let raw = cksum->0.checksum@;
    if own && !checksum_accepted(raw, acceptor, delegated) {
        r matches Err(e) && checksum_refusal(raw, acceptor, delegated, e)
    } else if cbt is Err {
        r matches Err(e) && e == cbt->Err_0
    } else if cbt->Ok_0 && acceptor is Some && !(own && bindings_match(raw, acceptor)) {
        r matches Err(e) && e == Error::ChannelBindings
    } else {
        r matches Ok(t) && (if own {
            t.0 == granted_flags(raw, acceptor, delegated) && t.1 == (if delegates(raw) {
                delegated->Ok_0
            } else {
                None
            })
        } else if cksum is Some {
            t.1 is None && t.0 == (if ap_mutual {
                GSS_C_REPLAY | GSS_C_SEQUENCE | GSS_C_MUTUAL
            } else {
                GSS_C_REPLAY | GSS_C_SEQUENCE
            })
        } else {
            t.1 is None && t.0 == 0
        })
    }
}

/// Judges the checksum of an authenticator: none gives no flags, one of
/// another type gives replay detection and sequence, the mechanism's own is
/// read.
pub fn process_checksum(
    cksum: &Option<ApChecksum>,
    ap_mutual: bool,
    acceptor: Option<&ChannelBindings>,
    delegated: Result<Option<String>, Error>,
    cbt: Result<bool, Error>,
) -> (r: Result<(u32, Option<String>), Error>)
    ensures
        checksum_result(*cksum, ap_mutual, acceptor, delegated, cbt, r),
{
    let mut flags: u32 = 0;
    let mut who: Option<String> = None;
    let mut cb_match: bool = false;
    match cksum {
        None => {},
        Some(ck) => {
            if ck.cksumtype != GSS_CHECKSUM_TYPE {
                flags = GSS_C_REPLAY | GSS_C_SEQUENCE;
                if ap_mutual {
                    flags = flags | GSS_C_MUTUAL;
                }
            } else {
                match read_initial_checksum(ck.checksum.as_slice(), acceptor, delegated) {
                    Err(e) => {
                        return Err(e);
                    },
                    Ok((f, d, m)) => {
                        flags = f;
                        who = d;
                        cb_match = m;
                    },
                }
            }
        },
    }
    match cbt {
        Err(e) => {
            return Err(e);
        },
        Ok(insists) => {
            if insists && acceptor.is_some() && !cb_match {
                return Err(Error::ChannelBindings);
            }
        },
    }
    Ok((flags, who))
}

/// Where an acceptor has channel bindings, a client that sent others is
/// refused, and the context counts as bound only where both are the same.
pub proof fn law_bindings_are_enforced(
    raw: Seq<u8>,
    acceptor: Option<&ChannelBindings>,
    delegated: Result<Option<String>, Error>,
)
    requires
        checksum_accepted(raw, acceptor, delegated),
    ensures
        acceptor is Some && some_set(token_bindings(raw)) ==> token_bindings(raw)
            == ChannelBindings::spec_hash(acceptor),
        granted_flags(raw, acceptor, delegated) & GSS_C_CHANNEL_BOUND != 0 <==> bindings_match(
            raw,
            acceptor,
        ),
{
    let f = checksum_flags(raw);
    assert(((f & 0x703eu32) & 0x0800u32 == 0) && (((f & 0x703eu32) | 1u32) & 0x0800u32 == 0) && (
    ((f & 0x703eu32) | 0x0800u32) & 0x0800u32 != 0) && ((((f & 0x703eu32) | 0x0800u32) | 1u32)
        & 0x0800u32 != 0)) by (bit_vector);
}

/// What an initiator writes an acceptor with the same bindings accepts, and
/// the context is bound.
pub proof fn law_matching_bindings_are_accepted(
    cb: ChannelBindings,
    flags: u32,
    delegated: Result<Option<String>, Error>,
)
    requires
        flags & GSS_C_DELEG == 0,
    ensures
        ChannelBindings::spec_hash(Some(&cb)).len() == 16 ==> checksum_accepted(
            initial_checksum(Some(&cb), flags, None),
            Some(&cb),
            delegated,
        ) && bindings_match(initial_checksum(Some(&cb), flags, None), Some(&cb)),
{
    if md5_digest(cb.encoding()).len() == 16 {
        lemma_matching_bindings(cb, flags, delegated);
    }
}

/// A checksum with a hash of the right length reads back as written.
proof fn lemma_matching_bindings(
    cb: ChannelBindings,
    flags: u32,
    delegated: Result<Option<String>, Error>,
)
    requires
        md5_digest(cb.encoding()).len() == 16,
        flags & GSS_C_DELEG == 0,
    ensures
        checksum_accepted(initial_checksum(Some(&cb), flags, None), Some(&cb), delegated),
        bindings_match(initial_checksum(Some(&cb), flags, None), Some(&cb)),
{
    let raw = initial_checksum(Some(&cb), flags, None);
    crate::bytes::lemma_le32_round_trip(16);
    crate::bytes::lemma_le32_round_trip(flags);
    assert(raw.len() == 24);
    assert(raw.take(4) =~= le32(16));
    assert(raw.subrange(20, 24) =~= le32(flags));
    assert(raw.subrange(4, 20) =~= md5_digest(cb.encoding()));
    assert(from_le32(raw, 0) == from_le32(raw.take(4), 0));
    assert(from_le32(raw, 20) == from_le32(raw.subrange(20, 24), 0));
}

/// An element of an authenticator's authorization data.
pub enum ApDatum {
    /// An AD-IF-RELEVANT, with the elements inside.
    IfRelevant(Vec<ApDatum>),
    /// An AD-IF-RELEVANT that cannot be read, with the text of the failure.
    Unreadable(String),
    /// AP options.
    ApOptions(Vec<u8>),
    /// Anything else.
    Other,
}

/// The AP option by which a client insists on channel bindings.
pub const KERB_AP_OPTIONS_CBT: u32 = 0x4000;

/// What looking for AP options brings.
#[verifier::ext_equal]
pub enum OptionsFound {
    /// They are these, or there are none.
    Options(Option<u32>),
    /// The data are bad.
    Bad,
    /// A container could not be read; the text of the failure.
    Unreadable(Seq<char>),
}

/// Looks for AP options in `els`, `hit` being those found before: those
/// inside a container count at once, two in one row or of a wrong length are
/// bad.
pub open spec fn ap_options(els: Seq<ApDatum>, hit: Option<u32>) -> OptionsFound
    decreases els,
{
    if els.len() == 0 {
        OptionsFound::Options(hit)
    } else {
        match els[0] {
            ApDatum::Unreadable(t) => OptionsFound::Unreadable(t@),
            ApDatum::IfRelevant(inner) => match ap_options(inner@, None) {
                OptionsFound::Options(None) => ap_options(els.drop_first(), hit),
                other => other,
            },
            ApDatum::ApOptions(d) => if hit is Some || d@.len() != 4 {
                OptionsFound::Bad
            } else {
                ap_options(els.drop_first(), Some(from_le32(d@, 0)))
            },
            ApDatum::Other => ap_options(els.drop_first(), hit),
        }
    }
}

/// What looking for AP options comes to.
pub open spec fn options_result(f: OptionsFound, r: Result<Option<u32>, Error>) -> bool {
    match f {
        OptionsFound::Options(o) => r matches Ok(x) && x == o,
        OptionsFound::Bad => r matches Err(e) && inner_error(e, "gss failure"@),
        OptionsFound::Unreadable(t) => r matches Err(e) && inner_error(e, t),
    }
}

/// Looks for AP options.
fn find_ap_options(els: &Vec<ApDatum>) -> (r: Result<Option<u32>, Error>)
    ensures
        options_result(ap_options(els@, None), r),
    decreases els,
{
    let mut hit: Option<u32> = None;
    let mut i: usize = 0;
    proof {
        assert(els@.skip(0) =~= els@);
    }
    while i < els.len()
        invariant
            i <= els.len(),
            ap_options(els@, None) == ap_options(els@.skip(i as int), hit),
        decreases els.len() - i,
    {
        proof {
            assert(els@.skip(i as int).drop_first() =~= els@.skip(i + 1));
            assert(els@.skip(i as int)[0] == els@[i as int]);
            assert(decreases_to!(els@ => els@[i as int]));
        }
        match &els[i] {
            ApDatum::Unreadable(t) => {
                return Err(Error::Inner(t.clone()));
            },
            ApDatum::IfRelevant(inside) => {
                match find_ap_options(inside) {
                    Err(e) => {
                        return Err(e);
                    },
                    Ok(Some(o)) => {
                        return Ok(Some(o));
                    },
                    Ok(None) => {},
                }
            },
            ApDatum::ApOptions(d) => {
                if hit.is_some() {
                    return Err(inner("gss failure"));
                }
                if d.len() != 4 {
                    return Err(inner("gss failure"));
                }
                hit = Some(get_le32(d.as_slice(), 0));
            },
            ApDatum::Other => {},
        }
        i = i + 1;
    }
    Ok(hit)
}

/// Whether the client insists on channel bindings.
pub fn authenticator_cbt(els: &Vec<ApDatum>) -> (r: Result<bool, Error>)
    ensures
        match ap_options(els@, None) {
            OptionsFound::Options(None) => r matches Ok(b) && !b,
            OptionsFound::Options(Some(o)) => r matches Ok(b) && b == (o & KERB_AP_OPTIONS_CBT
                != 0),
            OptionsFound::Bad => r matches Err(e) && inner_error(e, "gss failure"@),
            OptionsFound::Unreadable(t) => r matches Err(e) && inner_error(e, t),
        },
{
    match find_ap_options(els) {
        Err(e) => Err(e),
        Ok(None) => Ok(false),
        Ok(Some(o)) => Ok(o & KERB_AP_OPTIONS_CBT != 0),
    }
}

/// Delegated credentials that could be opened: the client of the first of
/// them, where there is one.
#[derive(Clone, Debug, PartialEq, Eq)]
pub struct DelegatedFacts {
    /// The client.
    pub client: Option<String>,
}

/// `open` gave `d` of the delegated credentials with these octets.
pub open spec fn cred_opened<O: Fn(&EncryptionKey, &Vec<u8>) -> Option<DelegatedFacts>>(
    open: O,
    key: EncryptionKey,
    cred: Seq<u8>,
    d: Option<DelegatedFacts>,
) -> bool {
    exists|x: Vec<u8>| x@ == cred && #[trigger] call_ensures(open, (&key, &x), d)
}

/// What opening delegated credentials under the subkey, where there is one,
/// else under the ticket's session key, comes to.
pub open spec fn cred_found<O: Fn(&EncryptionKey, &Vec<u8>) -> Option<DelegatedFacts>>(
    open: O,
    subkey: Option<EncryptionKey>,
    ticket_session: EncryptionKey,
    cred: Seq<u8>,
    d: Option<DelegatedFacts>,
) -> bool {
    match subkey {
        None => cred_opened(open, ticket_session, cred, d),
        Some(k) => {
            ||| d is Some && cred_opened(open, k, cred, d)
            ||| cred_opened(open, k, cred, None) && cred_opened(open, ticket_session, cred, d)
        },
    }
}

/// The delegated credentials in an initial checksum.
pub open spec fn delegated_octets(raw: Seq<u8>) -> Seq<u8> {
    raw.subrange(28, 28 + from_le16(raw, 26))
}

/// What taking delegated credentials out of an initial checksum comes to.
pub open spec fn delegated_result<O: Fn(&EncryptionKey, &Vec<u8>) -> Option<DelegatedFacts>>(
    raw: Seq<u8>,
    flags: u32,
    subkey: Option<EncryptionKey>,
    ticket_session: EncryptionKey,
    open: O,
    r: Result<Option<String>, Error>,
) -> bool {
    if flags & GSS_C_DELEG == 0 {
        r matches Ok(d) && d is None
    } else if raw.len() < 28 || from_le16(raw, 26) > raw.len() - 28 {
        r matches Err(e) && e == Error::Truncated
    } else {
        exists|d: Option<DelegatedFacts>|
            {
                &&& #[trigger] cred_found(open, subkey, ticket_session, delegated_octets(raw), d)
                &&& match d {
                    None => r matches Err(e) && inner_error(e, "gss failure"@),
                    Some(f) => match f.client {
                        None => r matches Err(e) && e == Error::Truncated,
                        Some(c) => r == Ok::<Option<String>, Error>(Some(c)),
                    },
                }
            }
    }
}

/// Whom the delegated credentials in an initial checksum name. `open` opens
/// them under a key: the subkey comes first, then the ticket's session key.
pub fn extract_delegated<O: Fn(&EncryptionKey, &Vec<u8>) -> Option<DelegatedFacts>>(
    raw: &[u8],
    flags: u32,
    subkey: &Option<EncryptionKey>,
    ticket_session: &EncryptionKey,
    open: &O,
) -> (r: Result<Option<String>, Error>)
    requires
        forall|k: EncryptionKey, x: Vec<u8>| #[trigger] call_requires(*open, (&k, &x)),
    ensures
        delegated_result(raw@, flags, *subkey, *ticket_session, *open, r),
{
    if flags & GSS_C_DELEG == 0 {
        return Ok(None);
    }
    if raw.len() < 28 {
        return Err(Error::Truncated);
    }
    let len: usize = get_le16(raw, 26) as usize;
    if len > raw.len() - 28 {
        return Err(Error::Truncated);
    }
    let cred = copy_range(raw, 28, 28 + len);
    let mut d: Option<DelegatedFacts> = None;
    match subkey {
        Some(k) => {
            d = open(k, &cred);
            proof {
                assert(cred_opened(*open, *k, delegated_octets(raw@), d));
            }
        },
        None => {},
    }
    if d.is_none() {
        d = open(ticket_session, &cred);
        proof {
            assert(cred_opened(*open, *ticket_session, delegated_octets(raw@), d));
        }
    }
    proof {
        assert(cred_found(*open, *subkey, *ticket_session, delegated_octets(raw@), d));
    }
    match d {
        None => Err(inner("gss failure")),
        Some(f) => match f.client {
            None => Err(Error::Truncated),
            Some(c) => Ok(Some(c)),
        },
    }
}

/// An initial token's AP-REQ, its token id in front: taken out of the frame,
/// or, in three-leg style, bare.
pub open spec fn ap_req_inner(token: Seq<u8>) -> Option<Seq<u8>> {
    let m = if token.len() > 0 && token[0] == 0x60 {
        match oid_and_rest(token) {
            Some(p) => Some(p.1),
            None => None,
        }
    } else {
        Some(TOK_AP_REQ@ + token)
    };
    match m {
        Some(s) => if s.len() >= 2 && s[0] == TOK_AP_REQ@[0] && s[1] == TOK_AP_REQ@[1] {
            Some(s.skip(2))
        } else {
            None
        },
        None => None,
    }
}

/// The initial token is a bare AP-REQ.
pub open spec fn bare_token(token: Seq<u8>) -> bool {
    token.len() == 0 || token[0] != 0x60
}

/// Takes the AP-REQ out of an initial token. The second part of the result
/// says that it was bare.
pub fn ap_req_token(token: &[u8]) -> (r: Result<(Vec<u8>, bool), Error>)
    ensures
        match ap_req_inner(token@) {
            Some(s) => r matches Ok(t) && t.0@ == s && t.1 == bare_token(token@),
            None => r matches Err(e) && e == Error::Truncated,
        },
{
    if token.len() > 0 && token[0] == 0x60 {
        match gss_unwrap_app(token) {
            Err(e) => Err(e),
            Ok(v) => {
                if v.len() < 2 || v[0] != TOK_AP_REQ[0] || v[1] != TOK_AP_REQ[1] {
                    return Err(Error::Truncated);
                }
                let out = copy_range(v.as_slice(), 2, v.len());
                proof {
                    assert(out@ =~= v@.skip(2));
                }
                Ok((out, false))
            },
        }
    } else {
        proof {
            assert((TOK_AP_REQ@ + token@).skip(2) =~= token@);
        }
        Ok((crate::bytes::copy(token), true))
    }
}

/// A context's window of received sequence numbers.
#[verifier::ext_equal]
pub struct SeqState {
    /// Numbers received.
    pub received: Set<u64>,
    /// The next number expected.
    pub next: u64,
    /// A number was received.
    pub seen: bool,
    /// The first number may be any.
    pub open: bool,
}

/// How far a number may be from the next one expected.
pub const SEQ_WINDOW: u64 = 32;

/// What receiving `seq` does: nothing where the number is refused. A number
/// received before is refused; so is the first where it is not the one
/// expected, and any other that is outside the window.
pub open spec fn seq_step(st: SeqState, seq: u64) -> Option<SeqState> {
    if st.received.contains(seq) {
        None
    } else if !st.seen {
        if seq != st.next && !st.open {
            None
        } else {
            Some(
                SeqState {
                    received: st.received.insert(seq),
                    next: seq.wrapping_add(1),
                    seen: true,
                    open: st.open,
                },
            )
        }
    } else if seq.wrapping_add(SEQ_WINDOW) < st.next || seq >= st.next.wrapping_add(SEQ_WINDOW) {
        None
    } else {
        Some(
            SeqState {
                received: st.received.insert(seq),
                next: if seq >= st.next {
                    seq.wrapping_add(1)
                } else {
                    st.next
                },
                seen: true,
                open: st.open,
            },
        )
    }
}

/// The state after numbers `seqs`, those refused left out.
pub open spec fn seq_run(st: SeqState, seqs: Seq<u64>) -> SeqState
    decreases seqs.len(),
{
    if seqs.len() == 0 {
        st
    } else {
        let before = seq_run(st, seqs.drop_last());
        match seq_step(before, seqs.last()) {
            Some(after) => after,
            None => before,
        }
    }
}

/// A number that was received once is refused ever after, whatever is
/// received in between.
pub proof fn law_no_number_twice(st: SeqState, seq: u64, between: Seq<u64>)
    requires
        seq_step(st, seq) is Some,
    ensures
        seq_step(seq_run(seq_step(st, seq)->0, between), seq) is None,
    decreases between.len(),
{
    lemma_received_grows(seq_step(st, seq)->0, seq, between);
}

/// What was received stays received.
proof fn lemma_received_grows(st: SeqState, seq: u64, seqs: Seq<u64>)
    requires
        st.received.contains(seq),
    ensures
        seq_run(st, seqs).received.contains(seq),
    decreases seqs.len(),
{
    if seqs.len() > 0 {
        lemma_received_grows(st, seq, seqs.drop_last());
    }
}

/// Two sides in step stay in step: the number expected is always accepted
/// where it is not among those received, and the next one is expected then.
pub proof fn law_next_number_is_accepted(st: SeqState)
    requires
        !st.received.contains(st.next),
        st.next <= u64::MAX - SEQ_WINDOW,
    ensures
        seq_step(st, st.next) matches Some(after) && after.next == st.next + 1,
{
}

/// An established context.
#[derive(Clone, Debug, PartialEq, Eq)]
pub struct GssContext {
    /// Session key.
    pub session: EncryptionKey,
    /// The acceptor's subkey.
    pub acceptor_subkey: Option<EncryptionKey>,
    /// Next sequence number to send.
    pub send_seq: u64,
    /// Next sequence number expected.
    pub recv_seq: u64,
    /// A sequence number was received.
    pub recv_seen: bool,
    /// Sequence numbers received, in ascending order.
    pub recv_window: Vec<u64>,
    /// This side is the initiator.
    pub initiator: bool,
    /// The first sequence number may be any.
    pub rpcsec_init_window: bool,
    /// The client, `name@REALM`.
    pub client: Option<String>,
    /// The client that delegated.
    pub delegated: Option<String>,
    /// The list of mechanisms that was negotiated.
    pub spnego_mech_list: Option<Vec<u8>>,
    /// End of the ticket (0: unknown).
    pub lifetime_end: u32,
    /// Context flags.
    pub gss_flags: u32,
    /// The ticket is an initial one.
    pub ticket_initial: bool,
    /// Server of the ticket.
    pub acceptor: Option<PrincipalName>,
    /// Realm of the ticket.
    pub ticket_realm: Option<String>,
    /// Key of the third leg.
    pub ap_rep_key: Option<EncryptionKey>,
    /// The context has three legs.
    pub dce_style: bool,
}

/// Numbers in ascending order, none twice.
pub open spec fn ascending_numbers(v: Seq<u64>) -> bool {
    forall|i: int, j: int| 0 <= i < j < v.len() ==> #[trigger] v[i] < #[trigger] v[j]
}

/// Puts `x` in its place among numbers in ascending order.
fn insert_number(v: &mut Vec<u64>, x: u64)
    requires
        ascending_numbers(old(v)@),
        !old(v)@.contains(x),
    ensures
        ascending_numbers(final(v)@),
        final(v)@.to_set() == old(v)@.to_set().insert(x),
{
    let ghost before = v@;
    let mut i: usize = 0;
    while i < v.len() && v[i] < x
        invariant
            i <= v.len(),
            v@ == before,
            ascending_numbers(before),
            forall|k: int| 0 <= k < i ==> #[trigger] before[k] < x,
        decreases v.len() - i,
    {
        i = i + 1;
    }
    proof {
        if i < before.len() {
            assert(before[i as int] != x) by {
                assert(before.contains(before[i as int]));
            }
        }
    }
    v.insert(i, x);
    proof {
        let after = v@;
        assert(after =~= before.insert(i as int, x));
        assert forall|k: int| i <= k < before.len() implies #[trigger] before[k] > x by {
            if k > i {
                assert(before[i as int] < before[k]);
            }
        }
        assert forall|a: int, b: int| 0 <= a < b < after.len() implies #[trigger] after[a]
            < #[trigger] after[b] by {
            let p = if a < i {
                a
            } else {
                a - 1
            };
            let q = if b < i {
                b
            } else {
                b - 1
            };
            if a != i && b != i {
                assert(before[p] < before[q]);
            }
        }
        assert(after.to_set() =~= before.to_set().insert(x)) by {
            assert forall|y: u64| after.to_set().contains(y) == before.to_set().insert(x).contains(
                y,
            ) by {
                if after.contains(y) {
                    let k = choose|k: int| 0 <= k < after.len() && after[k] == y;
                    if k < i {
                        assert(before[k] == y);
                    } else if k > i {
                        assert(before[k - 1] == y);
                    }
                }
                if before.contains(y) {
                    let k = choose|k: int| 0 <= k < before.len() && before[k] == y;
                    if k < i {
                        assert(after[k] == y);
                    } else {
                        assert(after[k + 1] == y);
                    }
                }
                assert(after[i as int] == x);
            }
        }
    }
}

/// Whether `v` holds `x`.
fn contains_number(v: &Vec<u64>, x: u64) -> (r: bool)
    ensures
        r == v@.contains(x),
{
    let mut i: usize = 0;
    while i < v.len()
        invariant
            i <= v.len(),
            forall|k: int| 0 <= k < i ==> #[trigger] v@[k] != x,
        decreases v.len() - i,
    {
        if v[i] == x {
            proof {
                assert(v@[i as int] == x);
            }
            return true;
        }
        i = i + 1;
    }
    false
}

/// `c` is the initiator's context that an initial token makes.
pub open spec fn is_initiated(
    c: GssContext,
    subkey: EncryptionKey,
    client: String,
    crealm: String,
    flags: u32,
) -> bool {
    &&& c.wf()
    &&& c.session == subkey
    &&& c.initiator
    &&& c.acceptor_subkey is None
    &&& c.send_seq == 0
    &&& c.recv_seq == 0
    &&& !c.recv_seen
    &&& c.recv_window@.len() == 0
    &&& !c.rpcsec_init_window
    &&& c.client == Some(client)
    &&& c.delegated is None
    &&& c.spnego_mech_list is None
    &&& c.lifetime_end == 0
    &&& c.gss_flags == flags
    &&& !c.ticket_initial
    &&& c.acceptor is None
    &&& c.ticket_realm == Some(crealm)
    &&& c.ap_rep_key is None
    &&& !c.dce_style
}

/// `c` is the acceptor's context for a verified AP-REQ.
pub open spec fn is_accepted(
    c: GssContext,
    facts: AcceptFacts,
    dce_style: bool,
    judged: (u32, Option<String>),
) -> bool {
    &&& c.wf()
    &&& c.session == (match facts.subkey {
        Some(k) => k,
        None => facts.ticket_session,
    })
    &&& c.acceptor_subkey is None
    &&& c.send_seq == 0
    &&& c.recv_seq == (match facts.seq_number {
        Some(n) => n,
        None => 0,
    })
    &&& !c.recv_seen
    &&& c.recv_window@.len() == 0
    &&& !c.initiator
    &&& !c.rpcsec_init_window
    &&& c.client == Some(facts.client)
    &&& c.delegated == judged.1
    &&& c.spnego_mech_list is None
    &&& c.lifetime_end == facts.endtime
    &&& c.gss_flags == accepted_flags(judged.0, dce_style)
    &&& c.ticket_initial == facts.initial
    &&& c.acceptor == Some(facts.sname)
    &&& c.ticket_realm == Some(facts.srealm)
    &&& c.dce_style == dce_style
    &&& c.ap_rep_key is Some == dce_style
    &&& c.ap_rep_key matches Some(k) ==> k.keytype == facts.ticket_session.keytype && k.keyvalue@
        == facts.ticket_session.keyvalue@
}

impl GssContext {
    /// The sequence numbers received are in ascending order.
    pub open spec fn wf(&self) -> bool {
        ascending_numbers(self.recv_window@)
    }

    /// The window of received sequence numbers.
    pub open spec fn seq_state(&self) -> SeqState {
        SeqState {
            received: self.recv_window@.to_set(),
            next: self.recv_seq,
            seen: self.recv_seen,
            open: self.rpcsec_init_window,
        }
    }

    /// `other` is this context but for the window of received numbers.
    pub open spec fn same_but_window(&self, other: GssContext) -> bool {
        other == (GssContext {
            recv_seq: other.recv_seq,
            recv_seen: other.recv_seen,
            recv_window: other.recv_window,
            ..*self
        })
    }

    /// Receives a sequence number.
    pub fn accept_seq(&mut self, seq: u64) -> (r: Result<(), Error>)
        requires
            old(self).wf(),
        ensures
            final(self).wf(),
            old(self).same_but_window(*final(self)),
            match seq_step(old(self).seq_state(), seq) {
                Some(st) => r is Ok && final(self).seq_state() == st,
                None => r == Err::<(), Error>(Error::Sequence) && *final(self) == *old(self),
            },
    {
        if contains_number(&self.recv_window, seq) {
            return Err(Error::Sequence);
        }
        if !self.recv_seen {
            if seq != self.recv_seq && !self.rpcsec_init_window {
                return Err(Error::Sequence);
            }
            self.recv_seen = true;
            insert_number(&mut self.recv_window, seq);
            self.recv_seq = seq.wrapping_add(1);
            return Ok(());
        }
        let next: u64 = self.recv_seq;
        let too_old: bool = seq.wrapping_add(SEQ_WINDOW) < next;
        let too_new: bool = seq >= next.wrapping_add(SEQ_WINDOW);
        if too_old || too_new {
            return Err(Error::Sequence);
        }
        insert_number(&mut self.recv_window, seq);
        if seq >= next {
            self.recv_seq = seq.wrapping_add(1);
        }
        Ok(())
    }

    /// Lets the first sequence number be any.
    pub fn allow_rpcsec_init_window(&mut self)
        ensures
            *final(self) == (GssContext { rpcsec_init_window: true, ..*old(self) }),
    {
        self.rpcsec_init_window = true;
    }

    /// A context with nothing sent or received.
    pub fn fresh(session: EncryptionKey, initiator: bool) -> (r: GssContext)
        ensures
            r.wf(),
            r.session == session,
            r.initiator == initiator,
            r.acceptor_subkey is None,
            r.send_seq == 0,
            r.recv_seq == 0,
            !r.recv_seen,
            r.recv_window@.len() == 0,
            !r.rpcsec_init_window,
            r.client is None,
            r.delegated is None,
            r.spnego_mech_list is None,
            r.lifetime_end == 0,
            r.gss_flags == 0,
            !r.ticket_initial,
            r.acceptor is None,
            r.ticket_realm is None,
            r.ap_rep_key is None,
            !r.dce_style,
    {
        GssContext {
            session,
            acceptor_subkey: None,
            send_seq: 0,
            recv_seq: 0,
            recv_seen: false,
            recv_window: Vec::new(),
            initiator,
            rpcsec_init_window: false,
            client: None,
            delegated: None,
            spnego_mech_list: None,
            lifetime_end: 0,
            gss_flags: 0,
            ticket_initial: false,
            acceptor: None,
            ticket_realm: None,
            ap_rep_key: None,
            dce_style: false,
        }
    }

    /// A context that only says who the acceptor is; its key is all zeros.
    pub fn for_kadm5_acceptor(acceptor: PrincipalName, ticket_realm: String) -> (r: GssContext)
        ensures
            r.wf(),
            r.session.keytype == AES256_CTS_HMAC_SHA1_96,
            r.session.keyvalue@ == Seq::new(32, |i: int| 0u8),
            !r.initiator,
            r.acceptor == Some(acceptor),
            r.ticket_realm == Some(ticket_realm),
            r.client is None,
            r.delegated is None,
            r.spnego_mech_list is None,
            r.acceptor_subkey is None,
            r.gss_flags == 0,
            r.lifetime_end == 0,
            r.recv_window@.len() == 0,
            !r.recv_seen,
            !r.rpcsec_init_window,
            r.send_seq == 0,
            r.recv_seq == 0,
            !r.ticket_initial,
            r.ap_rep_key is None,
            !r.dce_style,
    {
        let session = EncryptionKey {
            keytype: AES256_CTS_HMAC_SHA1_96,
            keyvalue: vec![0u8; 32],
        };
        proof {
            assert(session.keyvalue@ =~= Seq::new(32, |i: int| 0u8));
        }
        let mut c = GssContext::fresh(session, false);
        c.acceptor = Some(acceptor);
        c.ticket_realm = Some(ticket_realm);
        c
    }

    /// The initiator's context and its initial token. `subkey` is the key it
    /// chose, `ap_req` the encoded AP-REQ that carries it, `flags` those of
    /// [`initiator_flags`].
    pub fn initiated(
        subkey: EncryptionKey,
        client: String,
        crealm: String,
        flags: u32,
        ap_req: &[u8],
    ) -> (r: (GssContext, Vec<u8>))
        ensures
            is_initiated(r.0, subkey, client, crealm, flags),
            r.1@ == wrapped_app(TOK_AP_REQ@, ap_req@),
    {
        let mut c = GssContext::fresh(subkey, true);
        c.client = Some(client);
        c.ticket_realm = Some(crealm);
        c.gss_flags = flags;
        (c, gss_wrap_app(TOK_AP_REQ, ap_req))
    }

    /// The acceptor's context for a verified AP-REQ. Three-leg style adds
    /// mutual authentication. The second part of the result says that an
    /// AP-REP is owed.
    pub fn accepted(facts: AcceptFacts, dce_style: bool, judged: (u32, Option<String>)) -> (r: (
        GssContext,
        bool,
    ))
        ensures
            is_accepted(r.0, facts, dce_style, judged),
            r.1 == (accepted_flags(judged.0, dce_style) & GSS_C_MUTUAL != 0),
    {
        let (token_flags, delegated) = judged;
        let mut flags: u32 = token_flags;
        if dce_style {
            flags = flags | GSS_C_MUTUAL | GSS_C_DCE;
        }
        flags = flags | GSS_C_PROT_READY;
        let AcceptFacts {
            subkey,
            ticket_session,
            seq_number,
            client,
            endtime,
            initial,
            sname,
            srealm,
        } = facts;
        let ap_rep_key: Option<EncryptionKey> = if dce_style {
            Some(
                EncryptionKey {
                    keytype: ticket_session.keytype,
                    keyvalue: crate::bytes::copy(ticket_session.keyvalue.as_slice()),
                },
            )
        } else {
            None
        };
        let session = match subkey {
            Some(k) => k,
            None => ticket_session,
        };
        let mut c = GssContext::fresh(session, false);
        c.recv_seq = match seq_number {
            Some(n) => n as u64,
            None => 0,
        };
        c.client = Some(client);
        c.delegated = delegated;
        c.lifetime_end = endtime;
        c.gss_flags = flags;
        c.ticket_initial = initial;
        c.acceptor = Some(sname);
        c.ticket_realm = Some(srealm);
        c.ap_rep_key = ap_rep_key;
        c.dce_style = dce_style;
        (c, flags & GSS_C_MUTUAL != 0)
    }

    /// True where the initial token was bare.
    pub fn is_dce_style(&self) -> (r: bool)
        ensures
            r == self.dce_style,
    {
        self.dce_style
    }

    /// The session key.
    pub fn session_key(&self) -> (r: &EncryptionKey)
        ensures
            *r == self.session,
    {
        &self.session
    }

    /// True where the ticket is an initial one.
    pub fn ticket_is_initial(&self) -> (r: bool)
        ensures
            r == self.ticket_initial,
    {
        self.ticket_initial
    }

    /// Seconds that are left of the ticket at time `now` (0: expired or
    /// unknown).
    pub open spec fn remaining(&self, now: u32) -> u32 {
        if self.lifetime_end == 0 || self.lifetime_end < now {
            0
        } else {
            (self.lifetime_end - now) as u32
        }
    }

    /// Seconds that are left of the ticket.
    pub fn lifetime(&self, now: u32) -> (r: u32)
        ensures
            r == self.remaining(now),
    {
        if self.lifetime_end == 0 {
            return 0;
        }
        self.lifetime_end.saturating_sub(now)
    }

    /// The context flags; an established context can be exported.
    pub fn gss_flags(&self) -> (r: u32)
        ensures
            r == self.gss_flags | GSS_C_TRANS,
    {
        self.gss_flags | GSS_C_TRANS
    }

    /// What is known of the context.
    pub fn inquire_context(&self, now: u32) -> (r: InquireOk)
        ensures
            r.initiator == self.initiator,
            r.flags == self.gss_flags | GSS_C_TRANS,
            r.lifetime == self.remaining(now),
            match self.client {
                Some(c) => r.client matches Some(x) && x@ == c@,
                None => r.client is None,
            },
    {
        InquireOk {
            initiator: self.initiator,
            flags: self.gss_flags(),
            lifetime: self.lifetime(now),
            client: match &self.client {
                Some(c) => Some(c.clone()),
                None => None,
            },
        }
    }

    /// The client that delegated.
    pub fn delegated(&self) -> (r: Option<&str>)
        ensures
            match self.delegated {
                Some(s) => r matches Some(x) && x@ == s@,
                None => r is None,
            },
    {
        match &self.delegated {
            Some(s) => Some(s.as_str()),
            None => None,
        }
    }
}

/// What is known of a context.
#[derive(Clone, Debug, PartialEq, Eq)]
pub struct InquireOk {
    /// True if this context is the initiator.
    pub initiator: bool,
    /// Context flags, `GSS_C_TRANS` among them.
    pub flags: u32,
    /// Seconds that are left of the ticket (0: expired or unknown).
    pub lifetime: u32,
    /// The client, `name@REALM`.
    pub client: Option<String>,
}

/// What verifying an AP-REQ brought.
#[derive(Clone, Debug, PartialEq, Eq)]
pub struct AcceptFacts {
    /// The authenticator's subkey.
    pub subkey: Option<EncryptionKey>,
    /// The ticket's session key.
    pub ticket_session: EncryptionKey,
    /// The authenticator's sequence number.
    pub seq_number: Option<u32>,
    /// The client, `name@REALM`.
    pub client: String,
    /// End of the ticket.
    pub endtime: u32,
    /// The ticket is an initial one.
    pub initial: bool,
    /// Server of the ticket.
    pub sname: PrincipalName,
    /// Realm of the ticket.
    pub srealm: String,
}

/// The flags of an accepted context: what the checksum gave, with mutual
/// authentication in three-leg style, and per-message protection.
pub open spec fn accepted_flags(token_flags: u32, dce_style: bool) -> u32 {
    if dce_style {
        (token_flags | GSS_C_MUTUAL | GSS_C_DCE) | GSS_C_PROT_READY
    } else {
        token_flags | GSS_C_PROT_READY
    }
}

/// The flags that an initiator asks for.
pub open spec fn asked_flags(mutual: bool, deleg: bool) -> u32 {
    let base = GSS_C_INTEG | GSS_C_CONF | GSS_C_REPLAY | GSS_C_SEQUENCE;
    let a = if mutual {
        base | GSS_C_MUTUAL
    } else {
        base
    };
    if deleg {
        a | GSS_C_DELEG
    } else {
        a
    }
}

/// The flags that an initiator asks for.
pub fn initiator_flags(mutual: bool, deleg: bool) -> (r: u32)
    ensures
        r == asked_flags(mutual, deleg),
{
    let mut flags: u32 = GSS_C_INTEG | GSS_C_CONF | GSS_C_REPLAY | GSS_C_SEQUENCE;
    if mutual {
        flags = flags | GSS_C_MUTUAL;
    }
    if deleg {
        flags = flags | GSS_C_DELEG;
    }
    flags
}

/// A key drawn at random, of the same type and length as another.
pub fn random_subkey(keytype: i32, key_len: usize) -> (r: Result<EncryptionKey, Error>)
    requires
        key_len <= isize::MAX,
    ensures
        match r {
            Ok(k) => k.keytype == keytype && k.keyvalue@.len() == key_len,
            Err(e) => e is Inner,
        },
{
    match random_octets(key_len) {
        Ok(b) => Ok(EncryptionKey { keytype, keyvalue: b }),
        Err(t) => Err(Error::Inner(t)),
    }
}

/// Which of the acceptor's key versions may open a ticket: all, but where the
/// server is named and versions are known, only that of the ticket.
pub fn pinned_kvnos<'a>(server_named: bool, kvnos: Option<&'a [u32]>) -> (r: Option<&'a [u32]>)
    ensures
        r == (if server_named {
            kvnos
        } else {
            None
        }),
{
    if server_named {
        kvnos
    } else {
        None
    }
}

/// The AP-REP inside an acceptor's token.
pub fn ap_rep_token(token: &[u8]) -> (r: Result<Vec<u8>, Error>)
    ensures
        match oid_and_rest(token@) {
            Some(p) => if p.1.len() >= 2 && p.1[0] == TOK_AP_REP@[0] && p.1[1] == TOK_AP_REP@[1] {
                r matches Ok(v) && v@ == p.1.skip(2)
            } else {
                r matches Err(e) && e == Error::Truncated
            },
            None => r matches Err(e) && e == Error::Truncated,
        },
{
    match gss_unwrap_app(token) {
        Err(e) => Err(e),
        Ok(v) => {
            if v.len() < 2 || v[0] != TOK_AP_REP[0] || v[1] != TOK_AP_REP[1] {
                return Err(Error::Truncated);
            }
            let out = copy_range(v.as_slice(), 2, v.len());
            proof {
                assert(out@ =~= v@.skip(2));
            }
            Ok(out)
        },
    }
}

/// An accepted context has per-message protection, and a bare initial token
/// always gets an AP-REP.
pub proof fn law_accepted_context_flags(token_flags: u32, dce_style: bool)
    ensures
        accepted_flags(token_flags, dce_style) & GSS_C_PROT_READY != 0,
        dce_style ==> accepted_flags(token_flags, dce_style) & GSS_C_MUTUAL != 0,
{
    assert(((token_flags | 2u32 | 0x1000u32) | 128u32) & 128u32 != 0) by (bit_vector);
    assert((token_flags | 128u32) & 128u32 != 0) by (bit_vector);
    assert(((token_flags | 2u32 | 0x1000u32) | 128u32) & 2u32 != 0) by (bit_vector);
}

/// A client that insists on channel bindings is accepted by a side that has
/// some only where it sent the same ones in a checksum of its own kind.
pub proof fn law_insisting_client_is_bound(
    cksum: Option<ApChecksum>,
    ap_mutual: bool,
    acceptor: Option<&ChannelBindings>,
    delegated: Result<Option<String>, Error>,
    r: Result<(u32, Option<String>), Error>,
)
    requires
        checksum_result(cksum, ap_mutual, acceptor, delegated, Ok(true), r),
        acceptor is Some,
    ensures
        r is Ok ==> cksum is Some && cksum->0.cksumtype == 0x8003
            && cksum->0.checksum@.subrange(4, 20) == ChannelBindings::spec_hash(acceptor),
        r matches Ok(t) ==> t.0 & GSS_C_CHANNEL_BOUND != 0,
{
    if r is Ok {
        let raw = cksum->0.checksum@;
        let a = checksum_flags(raw) & INITIATOR_FLAGS;
        assert((a | 0x0800u32) & 0x0800u32 != 0 && ((a | 0x0800u32) | 1u32) & 0x0800u32 != 0)
            by (bit_vector);
    }
}

/// A client that sent no checksum gets no flags and delegates nothing; one that
/// sent a checksum of another kind gets replay and sequence, with mutual
/// authentication where it asked for that, and delegates nothing.
pub proof fn law_other_checksums_are_taken(
    cksum: Option<ApChecksum>,
    ap_mutual: bool,
    acceptor: Option<&ChannelBindings>,
    delegated: Result<Option<String>, Error>,
    r: Result<(u32, Option<String>), Error>,
)
    requires
        checksum_result(cksum, ap_mutual, acceptor, delegated, Ok(false), r),
        cksum matches Some(c) ==> c.cksumtype != 0x8003,
    ensures
        r matches Ok(t) && t.1 is None && t.0 == (if cksum is None {
            0u32
        } else if ap_mutual {
            0x0eu32
        } else {
            0x0cu32
        }),
{
    assert(4u32 | 8u32 == 0x0cu32 && 4u32 | 8u32 | 2u32 == 0x0eu32) by (bit_vector);
}

/// Where a client sent no bindings, those of the acceptor do not matter unless
/// the client insists on them.
pub proof fn law_unbound_client_is_accepted_alike(
    raw: Seq<u8>,
    a: Option<&ChannelBindings>,
    b: Option<&ChannelBindings>,
    delegated: Result<Option<String>, Error>,
)
    requires
        forall|i: int| 4 <= i < 20 ==> #[trigger] raw[i] == 0,
        raw.len() >= 24,
    ensures
        checksum_accepted(raw, a, delegated) <==> checksum_accepted(raw, b, delegated),
{
    assert(!some_set(token_bindings(raw))) by {
        assert forall|i: int| 0 <= i < token_bindings(raw).len() implies #[trigger] token_bindings(
            raw,
        )[i] == 0 by {
            assert(token_bindings(raw)[i] == raw[i + 4]);
        }
    }
}

/// Of the flags that a client asks for, those that it may ask for are granted,
/// and no others; delegation is granted where credentials were delegated.
pub proof fn law_asked_flags_are_granted(
    raw: Seq<u8>,
    acceptor: Option<&ChannelBindings>,
    delegated: Result<Option<String>, Error>,
)
    ensures
        granted_flags(raw, acceptor, delegated) & 0x703e == from_le32(raw, 20) & 0x703e,
        granted_flags(raw, acceptor, delegated) & !0x783fu32 == 0,
        granted_flags(raw, acceptor, delegated) & GSS_C_DELEG != 0 <==> (delegates(raw)
            && delegated matches Ok(Some(_))),
        granted_flags(raw, acceptor, delegated) & GSS_C_CHANNEL_BOUND != 0 <==> bindings_match(
            raw,
            acceptor,
        ),
{
    let f = from_le32(raw, 20);
    assert({
        let a = f & 0x703eu32;
        let b = a | 0x0800u32;
        let c = a | 1u32;
        let d = b | 1u32;
        &&& a & 0x703eu32 == a && b & 0x703eu32 == a && c & 0x703eu32 == a && d & 0x703eu32 == a
        &&& a & !0x783fu32 == 0 && b & !0x783fu32 == 0 && c & !0x783fu32 == 0 && d & !0x783fu32
            == 0
        &&& a & 1u32 == 0 && b & 1u32 == 0 && c & 1u32 != 0 && d & 1u32 != 0
        &&& a & 0x0800u32 == 0 && b & 0x0800u32 != 0 && c & 0x0800u32 == 0 && d & 0x0800u32 != 0
    }) by (bit_vector);
}

/// What an initiator delegates the acceptor finds in the initial checksum, with
/// the flags and the bindings that the initiator put there.
pub proof fn law_initial_checksum_reads_back(cb: Option<&ChannelBindings>, flags: u32, d: Seq<u8>)
    requires
        d.len() <= u16::MAX,
        ChannelBindings::spec_hash(cb).len() == 16,
    ensures
        ({
            let raw = initial_checksum(cb, flags, Some(d));
            &&& from_le32(raw, 0) == 16
            &&& checksum_flags(raw) == flags
            &&& token_bindings(raw) == ChannelBindings::spec_hash(cb)
            &&& delegates(raw) <==> flags & GSS_C_DELEG != 0
            &&& from_le16(raw, 24) == KRB5_GSS_FOR_CREDS
            &&& delegated_octets(raw) == d
            &&& raw.len() == 28 + d.len()
        }),
{
    let raw = initial_checksum(cb, flags, Some(d));
    let h = ChannelBindings::spec_hash(cb);
    lemma_le32_round_trip(16);
    lemma_le32_round_trip(flags);
    assert(raw[0] == le32(16)[0] && raw[1] == le32(16)[1] && raw[2] == le32(16)[2] && raw[3]
        == le32(16)[3]);
    assert(raw.subrange(4, 20) =~= h);
    assert(raw[20] == le32(flags)[0] && raw[21] == le32(flags)[1] && raw[22] == le32(flags)[2]
        && raw[23] == le32(flags)[3]);
    assert(raw[24] == 1 && raw[25] == 0);
    let n = d.len() as u16;
    assert(raw[26] == (n % 0x100) as u8 && raw[27] == (n / 0x100) as u8);
    assert(from_le16(raw, 26) == n);
    assert(raw.subrange(28, 28 + n) =~= d);
}

/// Extensions are passed over one by one: a whole one is passed over where it is
/// not of the type that is refused, and what stands behind it decides then.
pub proof fn law_extension_is_passed_over(front: Seq<u8>, ty: u32, body: Seq<u8>, rest: Seq<u8>)
    requires
        body.len() <= u32::MAX,
    ensures
        ({
            let raw = front + (be32(ty) + be32(body.len() as u32)) + body + rest;
            &&& ty == 2 ==> !extensions_ok(raw, front.len() as int)
            &&& ty != 2 ==> (extensions_ok(raw, front.len() as int) <==> extensions_ok(
                raw,
                (front.len() + 8 + body.len()) as int,
            ))
            &&& extensions_ok(raw, raw.len() as int)
        }),
{
    let n = body.len() as u32;
    let raw = front + (be32(ty) + be32(n)) + body + rest;
    let i = front.len() as int;
    lemma_be32_round_trip(ty);
    lemma_be32_round_trip(n);
    assert(raw[i] == be32(ty)[0] && raw[i + 1] == be32(ty)[1] && raw[i + 2] == be32(ty)[2]
        && raw[i + 3] == be32(ty)[3]);
    assert(raw[i + 4] == be32(n)[0] && raw[i + 5] == be32(n)[1] && raw[i + 6] == be32(n)[2]
        && raw[i + 7] == be32(n)[3]);
    assert(from_be32(raw, i) == ty);
    assert(from_be32(raw, i + 4) == n);
}

/// What stands behind the last extension and is too short to be one is refused.
pub proof fn law_cut_extension_is_refused(raw: Seq<u8>, i: int)
    requires
        0 < raw.len() - i < 8,
    ensures
        !extensions_ok(raw, i),
{
}

/// AP options count once: a second in the same row, or one that is not four
/// octets, makes the data bad; elements of other kinds do not matter, and an
/// unreadable container stops the search.
pub proof fn law_options_count_once(
    d: Vec<u8>,
    t: String,
    rest: Seq<ApDatum>,
    hit: Option<u32>,
)
    ensures
        ap_options(seq![ApDatum::Other] + rest, hit) == ap_options(rest, hit),
        ap_options(seq![ApDatum::Unreadable(t)] + rest, hit) == OptionsFound::Unreadable(t@),
        hit is Some ==> ap_options(seq![ApDatum::ApOptions(d)] + rest, hit) == OptionsFound::Bad,
        d@.len() != 4 ==> ap_options(seq![ApDatum::ApOptions(d)] + rest, hit) == OptionsFound::Bad,
        hit is None && d@.len() == 4 ==> ap_options(seq![ApDatum::ApOptions(d)] + rest, hit)
            == ap_options(rest, Some(from_le32(d@, 0))),
        ap_options(Seq::empty(), hit) == OptionsFound::Options(hit),
{
    let a = seq![ApDatum::Other] + rest;
    let b = seq![ApDatum::Unreadable(t)] + rest;
    let c = seq![ApDatum::ApOptions(d)] + rest;
    assert(a[0] == ApDatum::Other && a.drop_first() =~= rest);
    assert(b[0] == ApDatum::Unreadable(t));
    assert(c[0] == ApDatum::ApOptions(d) && c.drop_first() =~= rest);
}

/// AP options inside a container count at once, whatever stands behind it; a
/// container without any does not matter.
pub proof fn law_contained_options_count_at_once(
    inner: Vec<ApDatum>,
    rest: Seq<ApDatum>,
    hit: Option<u32>,
)
    ensures
        ap_options(inner@, None) == OptionsFound::Options(None) ==> ap_options(
            seq![ApDatum::IfRelevant(inner)] + rest,
            hit,
        ) == ap_options(rest, hit),
        ap_options(inner@, None) != OptionsFound::Options(None) ==> ap_options(
            seq![ApDatum::IfRelevant(inner)] + rest,
            hit,
        ) == ap_options(inner@, None),
{
    let a = seq![ApDatum::IfRelevant(inner)] + rest;
    assert(a[0] == ApDatum::IfRelevant(inner) && a.drop_first() =~= rest);
}

/// An initial token without a frame is the AP-REQ itself; a framed one holds an
/// AP-REQ where it is marked as one.
pub proof fn law_ap_req_is_taken_out(token: Seq<u8>, rest: Seq<u8>)
    ensures
        token.len() == 0 || token[0] != 0x60 ==> ap_req_inner(token) == Some(token),
        token.len() > 0 && token[0] == 0x60 ==> match oid_and_rest(token) {
            None => ap_req_inner(token) is None,
            Some(p) => {
                &&& p.1 == seq![1u8, 0] + rest ==> ap_req_inner(token) == Some(rest)
                &&& p.1.len() < 2 || p.1[0] != 1 || p.1[1] != 0 ==> ap_req_inner(token) is None
            },
        },
{
    if token.len() == 0 || token[0] != 0x60 {
        let s = TOK_AP_REQ@ + token;
        assert(s.skip(2) =~= token);
    } else if let Some(p) = oid_and_rest(token) {
        if p.1 == seq![1u8, 0] + rest {
            assert(p.1.skip(2) =~= rest);
        }
    }
}

/// Once a number was received, another is accepted where it was not received
/// before and lies within the window around the number expected; the number
/// expected then never goes back.
pub proof fn law_window_decides(st: SeqState, seq: u64)
    requires
        st.seen,
        st.next <= u64::MAX - 32,
        seq <= u64::MAX - 32,
    ensures
        seq_step(st, seq) is Some <==> (!st.received.contains(seq) && st.next - 32 <= seq < st.next
            + 32),
        seq_step(st, seq) matches Some(after) ==> after.next == (if seq >= st.next {
            seq + 1
        } else {
            st.next as int
        }) && after.received == st.received.insert(seq) && after.seen && after.open == st.open,
{
}

/// The first number is the one expected, or any where the window is open; the
/// one behind it is expected then.
pub proof fn law_first_number_decides(st: SeqState, seq: u64)
    requires
        !st.seen,
        !st.received.contains(seq),
        seq < u64::MAX,
    ensures
        seq_step(st, seq) is Some <==> (seq == st.next || st.open),
        seq_step(st, seq) matches Some(after) ==> after.next == seq + 1 && after.seen
            && after.received == st.received.insert(seq) && after.open == st.open,
{
}

/// Of a ticket that has not ended, the time that is left brings `now` to its
/// end; of another, or where the end is not known, nothing is left.
pub proof fn law_time_left_reaches_the_end(c: GssContext, now: u32)
    ensures
        c.lifetime_end != 0 && now <= c.lifetime_end ==> now + c.remaining(now) == c.lifetime_end,
        c.lifetime_end == 0 || c.lifetime_end < now ==> c.remaining(now) == 0,
{
}

/// An initiator asks for confidentiality, integrity, replay and sequence
/// detection; for mutual authentication and delegation where it is told to.
pub proof fn law_asked_flags(mutual: bool, deleg: bool)
    ensures
        asked_flags(mutual, deleg) & GSS_C_MUTUAL != 0 <==> mutual,
        asked_flags(mutual, deleg) & GSS_C_DELEG != 0 <==> deleg,
        asked_flags(mutual, deleg) & !3u32 == 0x3c,
{
    assert({
        let b = 32u32 | 16u32 | 4u32 | 8u32;
        &&& b & 2u32 == 0 && b & 1u32 == 0 && b & !3u32 == 0x3c
        &&& (b | 2u32) & 2u32 != 0 && (b | 2u32) & 1u32 == 0 && (b | 2u32) & !3u32 == 0x3c
        &&& (b | 1u32) & 2u32 == 0 && (b | 1u32) & 1u32 != 0 && (b | 1u32) & !3u32 == 0x3c
        &&& (b | 2u32 | 1u32) & 2u32 != 0 && (b | 2u32 | 1u32) & 1u32 != 0 && (b | 2u32 | 1u32)
            & !3u32 == 0x3c
    }) by (bit_vector);
}

/// An accepted context keeps the flags that the checksum gave, gets that it can
/// protect messages, and in three-leg style mutual authentication and that
/// style; it gets no other.
pub proof fn law_accepted_context_keeps_flags(token_flags: u32, dce_style: bool)
    ensures
        accepted_flags(token_flags, dce_style) & token_flags == token_flags,
        accepted_flags(token_flags, dce_style) & GSS_C_PROT_READY != 0,
        dce_style ==> accepted_flags(token_flags, dce_style) & 0x1002 == 0x1002 && accepted_flags(
            token_flags,
            dce_style,
        ) & !0x1082u32 == token_flags & !0x1082u32,
        !dce_style ==> accepted_flags(token_flags, dce_style) & !0x80u32 == token_flags & !0x80u32,
{
    let t = token_flags;
    assert({
        let a = (t | 2u32 | 0x1000u32) | 0x80u32;
        let b = t | 0x80u32;
        &&& a & t == t && b & t == t && a & 0x80u32 != 0 && b & 0x80u32 != 0
        &&& a & 0x1002u32 == 0x1002u32 && a & !0x1082u32 == t & !0x1082u32
        &&& b & !0x80u32 == t & !0x80u32
    }) by (bit_vector);
}

} // verus!
