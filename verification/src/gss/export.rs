//! Contexts as octets.

use crate::bytes::{
    append, be16, be32, be64, copy_range, from_be16, from_be32, from_be64, from_le32, get_be16,
    get_be32, get_be64, get_le32, le32, lemma_be16_round_trip, lemma_be32_round_trip,
    lemma_be64_round_trip, lemma_le32_round_trip, put_be16, put_be32, put_be64, put_le32,
};
use crate::gss::context::{ascending_numbers, GssContext};
use crate::gss::error::{inner, inner_error, Error};
use crate::msg::EncryptionKey;
use crate::outside::utf8_text;
use vstd::prelude::*;
use vstd::slice::slice_subrange;
use vstd::string::*;
use vstd::utf8::{decode_utf8, encode_utf8, valid_utf8};

verus! {

/// First octets of an exported context.
pub const EXPORT_MAGIC: [u8; 4] = [0x4b, 0x35, 0x47, 0x31];

/// Version of the form.
pub const EXPORT_VERSION: u8 = 1;

/// A key type that the crypto layer knows, and the length of its keys.
#[derive(Clone, Copy, Debug, PartialEq, Eq, Structural)]
pub struct KeyShape {
    /// Type.
    pub keytype: i32,
    /// Length.
    pub len: usize,
}

/// Keys of this type and length can be used.
pub open spec fn key_ok(shapes: Seq<KeyShape>, keytype: i32, len: nat) -> bool {
    exists|i: int|
        0 <= i < shapes.len() && (#[trigger] shapes[i]).keytype == keytype && shapes[i].len == len
}

/// Whether keys of this type and length can be used.
pub fn is_key_ok(shapes: &[KeyShape], keytype: i32, len: usize) -> (r: bool)
    ensures
        r == key_ok(shapes@, keytype, len as nat),
{
    let mut i: usize = 0;
    while i < shapes.len()
        invariant
            i <= shapes.len(),
            forall|k: int|
                0 <= k < i ==> !((#[trigger] shapes@[k]).keytype == keytype && shapes@[k].len
                    == len),
        decreases shapes.len() - i,
    {
        if shapes[i].keytype == keytype && shapes[i].len == len {
            proof {
                assert(shapes@[i as int].keytype == keytype);
            }
            return true;
        }
        i = i + 1;
    }
    false
}

/// What of a context is exported.
#[verifier::ext_equal]
pub struct ContextView {
    /// This side is the initiator.
    pub initiator: bool,
    /// The first sequence number may be any.
    pub open: bool,
    /// Context flags.
    pub flags: u32,
    /// End of the ticket.
    pub lifetime_end: u32,
    /// Next sequence number to send.
    pub send_seq: u64,
    /// Next sequence number expected.
    pub recv_seq: u64,
    /// A sequence number was received.
    pub recv_seen: bool,
    /// Sequence numbers received.
    pub received: Seq<u64>,
    /// Session key.
    pub session: (i32, Seq<u8>),
    /// The acceptor's subkey.
    pub subkey: Option<(i32, Seq<u8>)>,
    /// The client; empty where there is none.
    pub client: Seq<char>,
    /// The client that delegated; empty where there is none.
    pub delegated: Seq<char>,
    /// The list of mechanisms; empty where there is none.
    pub mech_list: Seq<u8>,
}

/// The octet for a truth value.
pub open spec fn flag_octet(b: bool) -> u8 {
    if b {
        1
    } else {
        0
    }
}

/// A key: type, length and octets.
pub open spec fn key_octets(k: (i32, Seq<u8>)) -> Seq<u8> {
    be32(k.0 as u32) + be16(k.1.len() as u16) + k.1
}

/// Octets behind their length.
pub open spec fn counted16(s: Seq<u8>) -> Seq<u8> {
    be16(s.len() as u16) + s
}

/// Numbers, eight octets each.
pub open spec fn number_octets(v: Seq<u64>) -> Seq<u8>
    decreases v.len(),
{
    if v.len() == 0 {
        Seq::empty()
    } else {
        number_octets(v.drop_last()) + be64(v.last())
    }
}

/// The part of an exported context in front of the received numbers.
pub open spec fn head_octets(v: ContextView) -> Seq<u8> {
    EXPORT_MAGIC@ + seq![EXPORT_VERSION, flag_octet(v.initiator), flag_octet(v.open)] + le32(
        v.flags,
    ) + le32(v.lifetime_end) + be64(v.send_seq) + be64(v.recv_seq) + seq![flag_octet(v.recv_seen)]
        + be16(v.received.len() as u16)
}

/// The acceptor's subkey, behind an octet that says whether there is one.
pub open spec fn subkey_octets(k: Option<(i32, Seq<u8>)>) -> Seq<u8> {
    match k {
        Some(x) => seq![1u8] + key_octets(x),
        None => seq![0u8],
    }
}

/// An exported context.
pub open spec fn exported(v: ContextView) -> Seq<u8> {
    head_octets(v) + number_octets(v.received) + key_octets(v.session) + subkey_octets(v.subkey)
        + counted16(encode_utf8(v.client)) + counted16(encode_utf8(v.delegated)) + counted16(
        v.mech_list,
    )
}

/// A key as it is exported.
pub open spec fn key_view(k: EncryptionKey) -> (i32, Seq<u8>) {
    (k.keytype, k.keyvalue@)
}

/// An optional text, empty where there is none.
pub open spec fn text_or_empty(s: Option<String>) -> Seq<char> {
    match s {
        Some(t) => t@,
        None => Seq::empty(),
    }
}

impl GssContext {
    /// What of the context is exported.
    pub open spec fn export_view(&self) -> ContextView {
        ContextView {
            initiator: self.initiator,
            open: self.rpcsec_init_window,
            flags: self.gss_flags,
            lifetime_end: self.lifetime_end,
            send_seq: self.send_seq,
            recv_seq: self.recv_seq,
            recv_seen: self.recv_seen,
            received: self.recv_window@,
            session: key_view(self.session),
            subkey: match self.acceptor_subkey {
                Some(k) => Some(key_view(k)),
                None => None,
            },
            client: text_or_empty(self.client),
            delegated: text_or_empty(self.delegated),
            mech_list: match self.spnego_mech_list {
                Some(l) => l@,
                None => Seq::empty(),
            },
        }
    }
}

/// Every length in an exported context can be written.
pub open spec fn exportable(v: ContextView) -> bool {
    &&& v.received.len() <= 0xffff
    &&& v.session.1.len() <= 0xffff
    &&& v.subkey matches Some(k) ==> k.1.len() <= 0xffff
    &&& encode_utf8(v.client).len() <= 0xffff
    &&& encode_utf8(v.delegated).len() <= 0xffff
    &&& v.mech_list.len() <= 0xffff
}

/// Writes a key.
fn write_key(out: &mut Vec<u8>, key: &EncryptionKey) -> (r: Result<(), Error>)
    ensures
        if key.keyvalue@.len() <= 0xffff {
            r is Ok && final(out)@ == old(out)@ + key_octets(key_view(*key))
        } else {
            r == Err::<(), Error>(Error::Truncated)
        },
{
    put_be32(out, key.keytype as u32);
    if key.keyvalue.len() > 0xffff {
        return Err(Error::Truncated);
    }
    put_be16(out, key.keyvalue.len() as u16);
    append(out, key.keyvalue.as_slice());
    proof {
        assert(final(out)@ =~= old(out)@ + key_octets(key_view(*key)));
    }
    Ok(())
}

/// Writes octets behind their length.
fn write_counted(out: &mut Vec<u8>, b: &[u8]) -> (r: Result<(), Error>)
    ensures
        if b@.len() <= 0xffff {
            r is Ok && final(out)@ == old(out)@ + counted16(b@)
        } else {
            r == Err::<(), Error>(Error::Truncated)
        },
{
    if b.len() > 0xffff {
        return Err(Error::Truncated);
    }
    put_be16(out, b.len() as u16);
    append(out, b);
    proof {
        assert(final(out)@ =~= old(out)@ + counted16(b@));
    }
    Ok(())
}

/// Writes a text behind its length; nothing counts as empty.
fn write_opt_str(out: &mut Vec<u8>, s: &Option<String>) -> (r: Result<(), Error>)
    ensures
        if encode_utf8(text_or_empty(*s)).len() <= 0xffff {
            r is Ok && final(out)@ == old(out)@ + counted16(encode_utf8(text_or_empty(*s)))
        } else {
            r == Err::<(), Error>(Error::Truncated)
        },
{
    match s {
        Some(t) => write_counted(out, t.as_str().as_bytes()),
        None => {
            let none: Vec<u8> = Vec::new();
            proof {
                assert(encode_utf8(Seq::<char>::empty()) =~= Seq::<u8>::empty());
                assert(none@ =~= Seq::<u8>::empty());
            }
            write_counted(out, none.as_slice())
        },
    }
}

/// Writes numbers.
fn write_numbers(out: &mut Vec<u8>, v: &Vec<u64>)
    ensures
        final(out)@ == old(out)@ + number_octets(v@),
{
    let ghost before = out@;
    let mut i: usize = 0;
    proof {
        assert(v@.take(0) =~= Seq::<u64>::empty());
        assert(before + number_octets(v@.take(0)) =~= before);
    }
    while i < v.len()
        invariant
            i <= v.len(),
            out@ == before + number_octets(v@.take(i as int)),
        decreases v.len() - i,
    {
        proof {
            assert(v@.take(i + 1).drop_last() =~= v@.take(i as int));
            assert(v@.take(i + 1).last() == v@[i as int]);
        }
        put_be64(out, v[i]);
        i = i + 1;
        proof {
            assert(out@ =~= before + number_octets(v@.take(i as int)));
        }
    }
    proof {
        assert(v@.take(v@.len() as int) =~= v@);
    }
}

/// The octet for a truth value.
fn octet_of(b: bool) -> (r: u8)
    ensures
        r == flag_octet(b),
{
    if b {
        1
    } else {
        0
    }
}

impl GssContext {
    /// The context as octets; refused where a length cannot be written.
    pub fn export_sec_context(&self) -> (r: Result<Vec<u8>, Error>)
        ensures
            if exportable(self.export_view()) {
                r matches Ok(v) && v@ == exported(self.export_view())
            } else {
                r matches Err(e) && e == Error::Truncated
            },
    {
        let mut o: Vec<u8> = Vec::new();
        append(&mut o, &EXPORT_MAGIC);
        o.push(EXPORT_VERSION);
        o.push(octet_of(self.initiator));
        o.push(octet_of(self.rpcsec_init_window));
        put_le32(&mut o, self.gss_flags);
        put_le32(&mut o, self.lifetime_end);
        put_be64(&mut o, self.send_seq);
        put_be64(&mut o, self.recv_seq);
        o.push(octet_of(self.recv_seen));
        if self.recv_window.len() > 0xffff {
            return Err(Error::Truncated);
        }
        put_be16(&mut o, self.recv_window.len() as u16);
        proof {
            assert(o@ =~= head_octets(self.export_view()));
        }
        write_numbers(&mut o, &self.recv_window);
        match write_key(&mut o, &self.session) {
            Err(e) => {
                return Err(e);
            },
            Ok(()) => {},
        }
        let ghost before_sub = o@;
        match &self.acceptor_subkey {
            Some(k) => {
                o.push(1);
                match write_key(&mut o, k) {
                    Err(e) => {
                        return Err(e);
                    },
                    Ok(()) => {},
                }
            },
            None => {
                o.push(0);
            },
        }
        proof {
            assert(o@ =~= before_sub + subkey_octets(self.export_view().subkey));
        }
        match write_opt_str(&mut o, &self.client) {
            Err(e) => {
                return Err(e);
            },
            Ok(()) => {},
        }
        match write_opt_str(&mut o, &self.delegated) {
            Err(e) => {
                return Err(e);
            },
            Ok(()) => {},
        }
        match &self.spnego_mech_list {
            Some(l) => match write_counted(&mut o, l.as_slice()) {
                Err(e) => {
                    return Err(e);
                },
                Ok(()) => {},
            },
            None => {
                let none: Vec<u8> = Vec::new();
                proof {
                    assert(none@ =~= Seq::<u8>::empty());
                }
                match write_counted(&mut o, none.as_slice()) {
                    Err(e) => {
                        return Err(e);
                    },
                    Ok(()) => {},
                }
            },
        }
        Ok(o)
    }
}

/// Why an exported context cannot be read.
#[derive(Clone, Copy, Debug, PartialEq, Eq, Structural)]
pub enum ImportFault {
    /// It is cut short, or not one at all.
    Truncated,
    /// A key cannot be used.
    BadKey,
}

/// The failure for a fault.
pub open spec fn fault_error(f: ImportFault, e: Error) -> bool {
    match f {
        ImportFault::Truncated => e == Error::Truncated,
        ImportFault::BadKey => inner_error(e, "gss key"@),
    }
}

/// A key read at `i`, and the place behind it.
pub open spec fn read_key_at(s: Seq<u8>, i: int, shapes: Seq<KeyShape>) -> Result<
    ((i32, Seq<u8>), int),
    ImportFault,
> {
    if i + 6 > s.len() {
        Err(ImportFault::Truncated)
    } else {
        let n = from_be16(s, i + 4) as int;
        if i + 6 + n > s.len() {
            Err(ImportFault::Truncated)
        } else if !key_ok(shapes, from_be32(s, i) as i32, n as nat) {
            Err(ImportFault::BadKey)
        } else {
            Ok(((from_be32(s, i) as i32, s.subrange(i + 6, i + 6 + n)), i + 6 + n))
        }
    }
}

/// Counted octets read at `i`, and the place behind them.
pub open spec fn read_counted_at(s: Seq<u8>, i: int) -> Option<(Seq<u8>, int)> {
    if i + 2 > s.len() || i + 2 + from_be16(s, i) > s.len() {
        None
    } else {
        let n = from_be16(s, i) as int;
        Some((s.subrange(i + 2, i + 2 + n), i + 2 + n))
    }
}

/// A text read at `i`, and the place behind it.
pub open spec fn read_text_at(s: Seq<u8>, i: int) -> Option<(Seq<char>, int)> {
    match read_counted_at(s, i) {
        Some((b, j)) => if valid_utf8(b) {
            Some((decode_utf8(b), j))
        } else {
            None
        },
        None => None,
    }
}

/// The first `n` numbers read at `i`.
pub open spec fn read_numbers(s: Seq<u8>, i: int, n: nat) -> Seq<u64> {
    Seq::new(n, |k: int| from_be64(s, i + 8 * k))
}

/// The part in front of the keys is whole.
pub open spec fn head_ok(s: Seq<u8>) -> bool {
    &&& s.len() >= 34
    &&& s.take(4) == EXPORT_MAGIC@
    &&& s[4] == EXPORT_VERSION
    &&& 34 + 8 * from_be16(s, 32) <= s.len()
}

/// The acceptor's subkey read at `i`, and the place behind it.
pub open spec fn read_subkey_at(s: Seq<u8>, i: int, shapes: Seq<KeyShape>) -> Result<
    (Option<(i32, Seq<u8>)>, int),
    ImportFault,
> {
    if i >= s.len() {
        Err(ImportFault::Truncated)
    } else if s[i] == 0 {
        Ok((None, i + 1))
    } else {
        match read_key_at(s, i + 1, shapes) {
            Err(f) => Err(f),
            Ok((k, j)) => Ok((Some(k), j)),
        }
    }
}

/// An exported context read.
pub open spec fn imported(s: Seq<u8>, shapes: Seq<KeyShape>) -> Result<ContextView, ImportFault> {
    if !head_ok(s) {
        Err(ImportFault::Truncated)
    } else {
        let n = from_be16(s, 32) as nat;
        match read_key_at(s, 34 + 8 * n as int, shapes) {
            Err(f) => Err(f),
            Ok((session, i1)) => match read_subkey_at(s, i1, shapes) {
                Err(f) => Err(f),
                Ok((subkey, i2)) => match read_text_at(s, i2) {
                    None => Err(ImportFault::Truncated),
                    Some((client, i3)) => match read_text_at(s, i3) {
                        None => Err(ImportFault::Truncated),
                        Some((delegated, i4)) => match read_counted_at(s, i4) {
                            None => Err(ImportFault::Truncated),
                            Some((mech_list, i5)) => if i5 != s.len() {
                                Err(ImportFault::Truncated)
                            } else {
                                Ok(
                                    ContextView {
                                        initiator: s[5] != 0,
                                        open: s[6] != 0,
                                        flags: from_le32(s, 7),
                                        lifetime_end: from_le32(s, 11),
                                        send_seq: from_be64(s, 15),
                                        recv_seq: from_be64(s, 23),
                                        recv_seen: s[31] != 0,
                                        received: read_numbers(s, 34, n),
                                        session,
                                        subkey,
                                        client,
                                        delegated,
                                        mech_list,
                                    },
                                )
                            },
                        },
                    },
                },
            },
        }
    }
}

/// Reads a key.
fn read_key(s: &[u8], i: usize, shapes: &[KeyShape]) -> (r: Result<(EncryptionKey, usize), Error>)
    requires
        i <= s.len(),
    ensures
        match read_key_at(s@, i as int, shapes@) {
            Ok(k) => r matches Ok(x) && key_view(x.0) == k.0 && x.1 == k.1 && x.1 <= s.len(),
            Err(f) => r matches Err(e) && fault_error(f, e),
        },
{
    if s.len() - i < 6 {
        return Err(Error::Truncated);
    }
    let keytype: i32 = get_be32(s, i) as i32;
    let n: usize = get_be16(s, i + 4) as usize;
    if s.len() - i - 6 < n {
        return Err(Error::Truncated);
    }
    if !is_key_ok(shapes, keytype, n) {
        return Err(inner("gss key"));
    }
    Ok((EncryptionKey { keytype, keyvalue: copy_range(s, i + 6, i + 6 + n) }, i + 6 + n))
}

/// Reads counted octets.
fn read_counted(s: &[u8], i: usize) -> (r: Result<(usize, usize), Error>)
    requires
        i <= s.len(),
    ensures
        match read_counted_at(s@, i as int) {
            Some(b) => r matches Ok(x) && x.0 == i + 2 && x.1 == b.1 && x.0 <= x.1 <= s.len()
                && s@.subrange(x.0 as int, x.1 as int) == b.0,
            None => r matches Err(e) && e == Error::Truncated,
        },
{
    if s.len() - i < 2 {
        return Err(Error::Truncated);
    }
    let n: usize = get_be16(s, i) as usize;
    if s.len() - i - 2 < n {
        return Err(Error::Truncated);
    }
    Ok((i + 2, i + 2 + n))
}

/// Reads a text; an empty one counts as none.
fn read_opt_str(s: &[u8], i: usize) -> (r: Result<(Option<String>, usize), Error>)
    requires
        i <= s.len(),
    ensures
        match read_text_at(s@, i as int) {
            Some(t) => r matches Ok(x) && text_or_empty(x.0) == t.0 && (x.0 matches Some(y)
                ==> y@.len() > 0) && x.1 == t.1 && x.1 <= s.len(),
            None => r matches Err(e) && e == Error::Truncated,
        },
{
    let (a, b): (usize, usize) = match read_counted(s, i) {
        Err(e) => {
            return Err(e);
        },
        Ok(x) => x,
    };
    match utf8_text(slice_subrange(s, a, b)) {
        None => Err(Error::Truncated),
        Some(t) => {
            if t.is_empty() {
                proof {
                    assert(t@ =~= Seq::<char>::empty());
                }
                return Ok((None, b));
            }
            Ok((Some(t.to_owned()), b))
        },
    }
}

/// A number that was read goes among those received.
fn note_number(v: &mut Vec<u64>, x: u64)
    requires
        ascending_numbers(old(v)@),
    ensures
        ascending_numbers(final(v)@),
        final(v)@.to_set() == old(v)@.to_set().insert(x),
        old(v)@.len() > 0 && old(v)@.last() < x ==> final(v)@ == old(v)@.push(x),
        old(v)@.len() == 0 ==> final(v)@ == seq![x],
{
    let ghost before = v@;
    let mut i: usize = v.len();
    while i > 0 && v[i - 1] >= x
        invariant
            i <= v.len(),
            v@ == before,
            ascending_numbers(before),
            forall|k: int| i <= k < before.len() ==> #[trigger] before[k] >= x,
        decreases i,
    {
        i = i - 1;
    }
    if i < v.len() && v[i] == x {
        proof {
            assert(before.to_set() =~= before.to_set().insert(x)) by {
                assert(before.contains(before[i as int]));
            }
        }
        return;
    }
    proof {
        assert forall|k: int| i <= k < before.len() implies #[trigger] before[k] > x by {
            if k > i {
                assert(before[i as int] < before[k]);
            }
        }
    }
    v.insert(i, x);
    proof {
        let after = v@;
        assert(after =~= before.insert(i as int, x));
        assert forall|a: int, b: int| 0 <= a < b < after.len() implies #[trigger] after[a]
            < #[trigger] after[b] by {
            let p = if a < i {
                a
            } else {
                a - 1
            };
            let q = if b < i {
                b
            } else {
                b - 1
            };
            if a != i && b != i {
                assert(before[p] < before[q]);
            } else if a == i {
                assert(before[q] > x);
            } else {
                if p < i - 1 {
                    assert(before[p] < before[i - 1]);
                }
            }
        }
        assert(after.to_set() =~= before.to_set().insert(x)) by {
            assert forall|y: u64| after.to_set().contains(y) == before.to_set().insert(x).contains(
                y,
            ) by {
                if after.contains(y) {
                    let k = choose|k: int| 0 <= k < after.len() && after[k] == y;
                    if k < i {
                        assert(before[k] == y);
                    } else if k > i {
                        assert(before[k - 1] == y);
                    }
                }
                if before.contains(y) {
                    let k = choose|k: int| 0 <= k < before.len() && before[k] == y;
                    if k < i {
                        assert(after[k] == y);
                    } else {
                        assert(after[k + 1] == y);
                    }
                }
                assert(after[i as int] == x);
            }
        }
    }
}

/// What reading an exported context comes to, but for the order of the
/// received numbers.
pub open spec fn import_result(
    s: Seq<u8>,
    shapes: Seq<KeyShape>,
    r: Result<GssContext, Error>,
) -> bool {
    match imported(s, shapes) {
        Err(f) => r matches Err(e) && fault_error(f, e),
        Ok(v) => r matches Ok(c) && {
            &&& c.wf()
            &&& c.export_view() == (ContextView { received: c.recv_window@, ..v })
            &&& c.recv_window@.to_set() == v.received.to_set()
            &&& ascending_numbers(v.received) ==> c.recv_window@ == v.received
            &&& c.client matches Some(t) ==> t@.len() > 0
            &&& c.delegated matches Some(t) ==> t@.len() > 0
            &&& c.spnego_mech_list matches Some(l) ==> l@.len() > 0
            &&& !c.ticket_initial
            &&& c.acceptor is None
            &&& c.ticket_realm is None
            &&& c.ap_rep_key is None
            &&& !c.dce_style
        },
    }
}

impl GssContext {
    /// Reads an exported context. `shapes` are the keys that the crypto layer
    /// can use.
    pub fn import_sec_context(s: &[u8], shapes: &[KeyShape]) -> (r: Result<GssContext, Error>)
        ensures
            import_result(s@, shapes@, r),
    {
        if s.len() < 34 || s[0] != EXPORT_MAGIC[0] || s[1] != EXPORT_MAGIC[1] || s[2]
            != EXPORT_MAGIC[2] || s[3] != EXPORT_MAGIC[3] || s[4] != EXPORT_VERSION {
            proof {
                if s@.len() >= 34 && s@.take(4) == EXPORT_MAGIC@ {
                    assert(s@[0] == s@.take(4)[0]);
                    assert(s@[1] == s@.take(4)[1]);
                    assert(s@[2] == s@.take(4)[2]);
                    assert(s@[3] == s@.take(4)[3]);
                }
            }
            return Err(Error::Truncated);
        }
        proof {
            assert(s@.take(4) =~= EXPORT_MAGIC@);
        }
        let n: usize = get_be16(s, 32) as usize;
        if s.len() - 34 < 8 * n {
            return Err(Error::Truncated);
        }
        let mut recv_window: Vec<u64> = Vec::new();
        let mut k: usize = 0;
        let ghost all = read_numbers(s@, 34, n as nat);
        proof {
            assert(all.take(0) =~= Seq::<u64>::empty());
            assert(recv_window@ =~= Seq::<u64>::empty());
        }
        while k < n
            invariant
                k <= n <= 0xffff,
                34 + 8 * n <= s.len(),
                all == read_numbers(s@, 34, n as nat),
                ascending_numbers(recv_window@),
                recv_window@.to_set() == all.take(k as int).to_set(),
                ascending_numbers(all) ==> recv_window@ == all.take(k as int),
            decreases n - k,
        {
            let x: u64 = get_be64(s, 34 + 8 * k);
            let ghost prev = recv_window@;
            note_number(&mut recv_window, x);
            proof {
                let t = all.take(k as int);
                let u = all.take(k + 1);
                assert(u =~= t.push(x));
                assert(u.to_set() =~= t.to_set().insert(x)) by {
                    assert forall|y: u64| u.to_set().contains(y) == t.to_set().insert(x).contains(
                        y,
                    ) by {
                        if u.contains(y) {
                            let j = choose|j: int| 0 <= j < u.len() && u[j] == y;
                            if j < t.len() {
                                assert(t[j] == y);
                            }
                        }
                        if t.contains(y) {
                            let j = choose|j: int| 0 <= j < t.len() && t[j] == y;
                            assert(u[j] == y);
                        }
                        assert(u[t.len() as int] == x);
                    }
                }
                if ascending_numbers(all) {
                    if k > 0 {
                        assert(all[k - 1] < all[k as int]);
                        assert(prev.last() == all[k - 1]);
                    } else {
                        assert(seq![x] =~= u);
                    }
                    assert(recv_window@ =~= u);
                }
            }
            k = k + 1;
        }
        proof {
            assert(all.take(n as int) =~= all);
        }
        let (session, i1): (EncryptionKey, usize) = match read_key(s, 34 + 8 * n, shapes) {
            Err(e) => {
                return Err(e);
            },
            Ok(x) => x,
        };
        if i1 >= s.len() {
            return Err(Error::Truncated);
        }
        let (acceptor_subkey, i2): (Option<EncryptionKey>, usize) = if s[i1] == 0 {
            (None, i1 + 1)
        } else {
            match read_key(s, i1 + 1, shapes) {
                Err(e) => {
                    return Err(e);
                },
                Ok((key, j)) => (Some(key), j),
            }
        };
        let (client, i3): (Option<String>, usize) = match read_opt_str(s, i2) {
            Err(e) => {
                return Err(e);
            },
            Ok(x) => x,
        };
        let (delegated, i4): (Option<String>, usize) = match read_opt_str(s, i3) {
            Err(e) => {
                return Err(e);
            },
            Ok(x) => x,
        };
        let (a, b): (usize, usize) = match read_counted(s, i4) {
            Err(e) => {
                return Err(e);
            },
            Ok(x) => x,
        };
        if b != s.len() {
            return Err(Error::Truncated);
        }
        let mech_list = copy_range(s, a, b);
        let spnego_mech_list: Option<Vec<u8>> = if mech_list.len() == 0 {
            proof {
                assert(mech_list@ =~= Seq::<u8>::empty());
            }
            None
        } else {
            Some(mech_list)
        };
        Ok(
            GssContext {
                session,
                acceptor_subkey,
                send_seq: get_be64(s, 15),
                recv_seq: get_be64(s, 23),
                recv_seen: s[31] != 0,
                recv_window,
                initiator: s[5] != 0,
                rpcsec_init_window: s[6] != 0,
                client,
                delegated,
                spnego_mech_list,
                lifetime_end: get_le32(s, 11),
                gss_flags: get_le32(s, 7),
                ticket_initial: false,
                acceptor: None,
                ticket_realm: None,
                ap_rep_key: None,
                dce_style: false,
            },
        )
    }
}

/// A number of 16 bits that stands at `i`.
proof fn lemma_be16_at(s: Seq<u8>, i: int, v: u16)
    requires
        0 <= i,
        i + 2 <= s.len(),
        s.subrange(i, i + 2) == be16(v),
    ensures
        from_be16(s, i) == v,
{
    lemma_be16_round_trip(v);
    assert(s[i] == s.subrange(i, i + 2)[0]);
    assert(s[i + 1] == s.subrange(i, i + 2)[1]);
}

/// A number of 32 bits that stands at `i`.
proof fn lemma_be32_at(s: Seq<u8>, i: int, v: u32)
    requires
        0 <= i,
        i + 4 <= s.len(),
        s.subrange(i, i + 4) == be32(v),
    ensures
        from_be32(s, i) == v,
{
    lemma_be32_round_trip(v);
    let t = s.subrange(i, i + 4);
    assert(s[i] == t[0] && s[i + 1] == t[1] && s[i + 2] == t[2] && s[i + 3] == t[3]);
}

/// A number of 64 bits that stands at `i`.
proof fn lemma_be64_at(s: Seq<u8>, i: int, v: u64)
    requires
        0 <= i,
        i + 8 <= s.len(),
        s.subrange(i, i + 8) == be64(v),
    ensures
        from_be64(s, i) == v,
{
    lemma_be64_round_trip(v);
    let t = s.subrange(i, i + 8);
    assert(s[i] == t[0] && s[i + 1] == t[1] && s[i + 2] == t[2] && s[i + 3] == t[3]);
    assert(s[i + 4] == t[4] && s[i + 5] == t[5] && s[i + 6] == t[6] && s[i + 7] == t[7]);
}

/// A little-endian number of 32 bits that stands at `i`.
proof fn lemma_le32_at(s: Seq<u8>, i: int, v: u32)
    requires
        0 <= i,
        i + 4 <= s.len(),
        s.subrange(i, i + 4) == le32(v),
    ensures
        from_le32(s, i) == v,
{
    lemma_le32_round_trip(v);
    let t = s.subrange(i, i + 4);
    assert(s[i] == t[0] && s[i + 1] == t[1] && s[i + 2] == t[2] && s[i + 3] == t[3]);
}

/// A key reads back as written.
proof fn lemma_key_at(pre: Seq<u8>, k: (i32, Seq<u8>), post: Seq<u8>, shapes: Seq<KeyShape>)
    requires
        k.1.len() <= 0xffff,
        key_ok(shapes, k.0, k.1.len()),
    ensures
        read_key_at(pre + key_octets(k) + post, pre.len() as int, shapes) == Ok::<
            ((i32, Seq<u8>), int),
            ImportFault,
        >((k, (pre + key_octets(k)).len() as int)),
{
    let s = pre + key_octets(k) + post;
    let i = pre.len() as int;
    let n = k.1.len() as int;
    let t = k.0;
    assert(s.subrange(i, i + 4) =~= be32(t as u32));
    assert(s.subrange(i + 4, i + 6) =~= be16(n as u16));
    lemma_be32_at(s, i, t as u32);
    lemma_be16_at(s, i + 4, n as u16);
    assert((t as u32) as i32 == t) by (bit_vector);
    assert(s.subrange(i + 6, i + 6 + n) =~= k.1);
}

/// Counted octets read back as written.
proof fn lemma_counted_at(pre: Seq<u8>, b: Seq<u8>, post: Seq<u8>)
    requires
        b.len() <= 0xffff,
    ensures
        read_counted_at(pre + counted16(b) + post, pre.len() as int) == Some(
            (b, (pre + counted16(b)).len() as int),
        ),
{
    let s = pre + counted16(b) + post;
    let i = pre.len() as int;
    let n = b.len() as int;
    assert(s.subrange(i, i + 2) =~= be16(n as u16));
    lemma_be16_at(s, i, n as u16);
    assert(s.subrange(i + 2, i + 2 + n) =~= b);
}

/// A text reads back as written.
proof fn lemma_text_at(pre: Seq<u8>, t: Seq<char>, post: Seq<u8>)
    requires
        encode_utf8(t).len() <= 0xffff,
    ensures
        read_text_at(pre + counted16(encode_utf8(t)) + post, pre.len() as int) == Some(
            (t, (pre + counted16(encode_utf8(t))).len() as int),
        ),
{
    lemma_counted_at(pre, encode_utf8(t), post);
    vstd::utf8::encode_utf8_valid_utf8(t);
    vstd::utf8::encode_utf8_decode_utf8(t);
}

/// Numbers read back as written.
proof fn lemma_numbers_at(pre: Seq<u8>, v: Seq<u64>, post: Seq<u8>)
    ensures
        number_octets(v).len() == 8 * v.len(),
        read_numbers(pre + number_octets(v) + post, pre.len() as int, v.len()) == v,
    decreases v.len(),
{
    let s = pre + number_octets(v) + post;
    let i = pre.len() as int;
    if v.len() > 0 {
        let w = v.drop_last();
        let x = v.last();
        lemma_numbers_at(pre, w, be64(x) + post);
        assert(pre + number_octets(w) + (be64(x) + post) =~= s);
        let at = i + 8 * w.len();
        assert(s.subrange(at, at + 8) =~= be64(x));
        lemma_be64_at(s, at, x);
        assert forall|k: int| 0 <= k < v.len() implies read_numbers(s, i, v.len())[k] == v[k] by {
            if k < w.len() {
                assert(read_numbers(s, i, w.len())[k] == w[k]);
            }
        }
        assert(read_numbers(s, i, v.len()) =~= v);
    } else {
        assert(read_numbers(s, i, 0) =~= v);
    }
}

/// The part in front of the received numbers reads back as written.
proof fn lemma_head_at(v: ContextView, post: Seq<u8>)
    requires
        v.received.len() <= 0xffff,
        post.len() >= 8 * v.received.len(),
    ensures
        ({
            let s = head_octets(v) + post;
            &&& head_octets(v).len() == 34
            &&& head_ok(s)
            &&& from_be16(s, 32) == v.received.len()
            &&& (s[5] != 0) == v.initiator
            &&& (s[6] != 0) == v.open
            &&& from_le32(s, 7) == v.flags
            &&& from_le32(s, 11) == v.lifetime_end
            &&& from_be64(s, 15) == v.send_seq
            &&& from_be64(s, 23) == v.recv_seq
            &&& (s[31] != 0) == v.recv_seen
        }),
{
    let h = head_octets(v);
    let s = h + post;
    assert(h.len() == 34);
    assert(s.take(4) =~= EXPORT_MAGIC@);
    assert(h[4] == EXPORT_VERSION);
    assert(h[5] == flag_octet(v.initiator));
    assert(h[6] == flag_octet(v.open));
    assert(h[31] == flag_octet(v.recv_seen));
    assert(s.subrange(7, 11) =~= le32(v.flags));
    assert(s.subrange(11, 15) =~= le32(v.lifetime_end));
    assert(s.subrange(15, 23) =~= be64(v.send_seq));
    assert(s.subrange(23, 31) =~= be64(v.recv_seq));
    assert(s.subrange(32, 34) =~= be16(v.received.len() as u16));
    lemma_le32_at(s, 7, v.flags);
    lemma_le32_at(s, 11, v.lifetime_end);
    lemma_be64_at(s, 15, v.send_seq);
    lemma_be64_at(s, 23, v.recv_seq);
    lemma_be16_at(s, 32, v.received.len() as u16);
}

/// What is exported is imported again: keys, sequence numbers, flags, names
/// and the negotiated list, as long as the crypto layer can use the keys.
#[verifier::spinoff_prover]
#[verifier::rlimit(60)]
pub proof fn law_export_round_trip(v: ContextView, shapes: Seq<KeyShape>)
    requires
        exportable(v),
        key_ok(shapes, v.session.0, v.session.1.len()),
        v.subkey matches Some(k) ==> key_ok(shapes, k.0, k.1.len()),
    ensures
        imported(exported(v), shapes) == Ok::<ContextView, ImportFault>(v),
{
    let h = head_octets(v);
    let nums = number_octets(v.received);
    let key = key_octets(v.session);
    let sub = subkey_octets(v.subkey);
    let c1 = counted16(encode_utf8(v.client));
    let c2 = counted16(encode_utf8(v.delegated));
    let c3 = counted16(v.mech_list);
    lemma_grouping(h, nums, key, sub, c1, c2, c3);
    lemma_numbers_at(h, v.received, key + (sub + c1 + c2 + c3));
    lemma_head_at(v, nums + key + (sub + c1 + c2 + c3));
    lemma_key_at(h + nums, v.session, sub + c1 + c2 + c3, shapes);
    lemma_subkey_at(h + nums + key, v.subkey, c1 + c2 + c3, shapes);
    lemma_text_at(h + nums + key + sub, v.client, c2 + c3);
    lemma_text_at(h + nums + key + sub + c1, v.delegated, c3);
    lemma_counted_at(h + nums + key + sub + c1 + c2, v.mech_list, Seq::empty());
    assert((h + nums).len() == 34 + 8 * v.received.len());
}

/// `p` is the front of `q`, which is longer.
pub open spec fn cut_from(p: Seq<u8>, q: Seq<u8>) -> bool {
    p.len() < q.len() && p == q.take(p.len() as int)
}

/// What is read in the front of octets is read in them all.
proof fn lemma_read_on(p: Seq<u8>, q: Seq<u8>, i: int, shapes: Seq<KeyShape>)
    requires
        cut_from(p, q),
        0 <= i,
    ensures
        read_key_at(p, i, shapes) is Ok ==> read_key_at(q, i, shapes) == read_key_at(p, i, shapes)
            && (read_key_at(p, i, shapes)->Ok_0).1 >= 0,
        read_subkey_at(p, i, shapes) is Ok ==> read_subkey_at(q, i, shapes) == read_subkey_at(
            p,
            i,
            shapes,
        ) && (read_subkey_at(p, i, shapes)->Ok_0).1 >= 0,
        read_counted_at(p, i) is Some ==> read_counted_at(q, i) == read_counted_at(p, i) && (
        read_counted_at(p, i)->0).1 >= 0,
        read_text_at(p, i) is Some ==> read_text_at(q, i) == read_text_at(p, i) && (read_text_at(
            p,
            i,
        )->0).1 >= 0,
{
    assert forall|k: int| 0 <= k < p.len() implies #[trigger] p[k] == q[k] by {}
    if read_counted_at(p, i) is Some {
        let n = from_be16(p, i) as int;
        assert(p.subrange(i + 2, i + 2 + n) =~= q.subrange(i + 2, i + 2 + n));
    }
    if read_key_at(p, i, shapes) is Ok {
        let n = from_be16(p, i + 4) as int;
        assert(p.subrange(i + 6, i + 6 + n) =~= q.subrange(i + 6, i + 6 + n));
    }
    if read_key_at(p, i + 1, shapes) is Ok {
        let n = from_be16(p, i + 5) as int;
        assert(p.subrange(i + 7, i + 7 + n) =~= q.subrange(i + 7, i + 7 + n));
    }
}

/// Octets that are imported are imported whole or not at all: with anything
/// behind them they are refused, and so is every cut of an exported context.
pub proof fn law_exported_context_is_whole(p: Seq<u8>, q: Seq<u8>, shapes: Seq<KeyShape>)
    requires
        cut_from(p, q),
    ensures
        imported(p, shapes) is Err || imported(q, shapes) is Err,
{
    if imported(p, shapes) is Ok {
        assert forall|k: int| 0 <= k < p.len() implies #[trigger] p[k] == q[k] by {}
        assert(q.take(4) =~= p.take(4));
        let i0 = 34 + 8 * from_be16(p, 32) as int;
        lemma_read_on(p, q, i0, shapes);
        let i1 = (read_key_at(p, i0, shapes)->Ok_0).1;
        lemma_read_on(p, q, i1, shapes);
        let i2 = (read_subkey_at(p, i1, shapes)->Ok_0).1;
        lemma_read_on(p, q, i2, shapes);
        let i3 = (read_text_at(p, i2)->0).1;
        lemma_read_on(p, q, i3, shapes);
        let i4 = (read_text_at(p, i3)->0).1;
        lemma_read_on(p, q, i4, shapes);
    }
}

/// A row of parts, grouped in front of and behind each of them.
proof fn lemma_grouping(
    h: Seq<u8>,
    nums: Seq<u8>,
    key: Seq<u8>,
    sub: Seq<u8>,
    c1: Seq<u8>,
    c2: Seq<u8>,
    c3: Seq<u8>,
)
    ensures
        ({
            let s = h + nums + key + sub + c1 + c2 + c3;
            &&& h + nums + (key + (sub + c1 + c2 + c3)) == s
            &&& h + (nums + key + (sub + c1 + c2 + c3)) == s
            &&& h + nums + key + (sub + c1 + c2 + c3) == s
            &&& h + nums + key + sub + (c1 + c2 + c3) == s
            &&& h + nums + key + sub + c1 + (c2 + c3) == s
            &&& s + Seq::<u8>::empty() == s
        }),
{
    let s = h + nums + key + sub + c1 + c2 + c3;
    assert(h + nums + (key + (sub + c1 + c2 + c3)) =~= s);
    assert(h + (nums + key + (sub + c1 + c2 + c3)) =~= s);
    assert(h + nums + key + (sub + c1 + c2 + c3) =~= s);
    assert(h + nums + key + sub + (c1 + c2 + c3) =~= s);
    assert(h + nums + key + sub + c1 + (c2 + c3) =~= s);
    assert(s + Seq::<u8>::empty() =~= s);
}

/// The acceptor's subkey reads back as written.
proof fn lemma_subkey_at(
    pre: Seq<u8>,
    k: Option<(i32, Seq<u8>)>,
    post: Seq<u8>,
    shapes: Seq<KeyShape>,
)
    requires
        k matches Some(x) ==> x.1.len() <= 0xffff && key_ok(shapes, x.0, x.1.len()),
    ensures
        read_subkey_at(pre + subkey_octets(k) + post, pre.len() as int, shapes) == Ok::<
            (Option<(i32, Seq<u8>)>, int),
            ImportFault,
        >((k, (pre + subkey_octets(k)).len() as int)),
{
    let s = pre + subkey_octets(k) + post;
    let i = pre.len() as int;
    match k {
        Some(x) => {
            assert(s[i] == 1);
            let q = pre + seq![1u8];
            lemma_key_at(q, x, post, shapes);
            assert(q + key_octets(x) + post =~= s);
        },
        None => {
            assert(s[i] == 0);
        },
    }
}

/// Octets that do not start as an exported context does, or are of another
/// version, are refused.
pub proof fn law_other_export_is_refused(s: Seq<u8>, shapes: Seq<KeyShape>)
    requires
        s.len() < 34 || s.take(4) != seq![0x4bu8, 0x35, 0x47, 0x31] || s[4] != 1,
    ensures
        imported(s, shapes) == Err::<ContextView, ImportFault>(ImportFault::Truncated),
{
    assert(EXPORT_MAGIC@ =~= seq![0x4bu8, 0x35, 0x47, 0x31]);
}

/// A key that is imported has a type and a length that are known together.
pub proof fn law_imported_key_is_known(s: Seq<u8>, i: int, shapes: Seq<KeyShape>)
    requires
        0 <= i,
    ensures
        read_key_at(s, i, shapes) matches Ok((k, j)) ==> exists|n: int|
            0 <= n < shapes.len() && (#[trigger] shapes[n]).keytype == k.0 && shapes[n].len
                == k.1.len(),
        read_key_at(s, i, shapes) matches Ok((k, j)) ==> j == i + 6 + k.1.len() && j <= s.len(),
{
}

/// A context that was exported is imported with the same keys, numbers, flags and
/// names; what is not exported is not there.
pub proof fn law_imported_context_is_the_exported(
    c: GssContext,
    shapes: Seq<KeyShape>,
    r: Result<GssContext, Error>,
)
    requires
        c.wf(),
        exportable(c.export_view()),
        key_ok(shapes, c.session.keytype, c.session.keyvalue@.len()),
        c.acceptor_subkey matches Some(k) ==> key_ok(shapes, k.keytype, k.keyvalue@.len()),
        import_result(exported(c.export_view()), shapes, r),
    ensures
        r matches Ok(d) && d.export_view() == c.export_view() && d.initiator == c.initiator
            && d.send_seq == c.send_seq && d.recv_seq == c.recv_seq && d.recv_window@
            == c.recv_window@ && d.gss_flags == c.gss_flags && d.lifetime_end == c.lifetime_end
            && !d.dce_style && d.ap_rep_key is None,
{
    law_export_round_trip(c.export_view(), shapes);
}

/// Octets that cannot be read are refused as cut short, and a key that cannot be
/// used with a text that says so.
pub proof fn law_import_faults_are_told(
    s: Seq<u8>,
    shapes: Seq<KeyShape>,
    r: Result<GssContext, Error>,
)
    requires
        import_result(s, shapes, r),
    ensures
        r is Ok <==> imported(s, shapes) is Ok,
        imported(s, shapes) == Err::<ContextView, ImportFault>(ImportFault::Truncated) ==> r
            == Err::<GssContext, Error>(Error::Truncated),
        imported(s, shapes) == Err::<ContextView, ImportFault>(ImportFault::BadKey) ==> r
            is Err && inner_error(r->Err_0, "gss key"@),
{
}

} // verus!
