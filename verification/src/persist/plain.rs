//! The list of entries inside an encrypted database of the older formats.

use crate::bytes::{
    append, be32, be64, copy_range, from_be32, from_be64, get_be32, get_be64,
    lemma_be32_round_trip, lemma_be64_round_trip, put_be32, put_be64,
};
use crate::gss::export::{is_key_ok, key_ok, KeyShape};
use crate::name::{ascii_parts, NameView, PrincipalName};
use crate::outside::utf8_text;
use crate::persist::{PersistError, PersistErrorView};
use crate::store::{key_views, KeyEntry, KeyView};
use crate::text::{chars_of, concat, law_split_of_join, split, split_chars};
use vstd::prelude::*;
use vstd::string::*;
use vstd::utf8::{decode_utf8, encode_utf8, valid_utf8};

verus! {

/// An entry.
#[derive(Clone, Debug, PartialEq, Eq)]
pub struct PlainEntry {
    /// Name.
    pub name: PrincipalName,
    /// Salt.
    pub salt: Vec<u8>,
    /// Pre-authentication is required.
    pub requires_preauth: bool,
    /// Longest ticket life in seconds.
    pub max_life: u64,
    /// Keys.
    pub keys: Vec<KeyEntry>,
    /// No tickets are given.
    pub locked: bool,
    /// Password expiry (0: never).
    pub pw_expire: u32,
}

/// The identifiers behind the entries.
#[derive(Clone, Debug, PartialEq, Eq)]
pub struct SidTrailer {
    /// The domain identifier as text.
    pub sddl: String,
    /// The next relative identifier.
    pub next_rid: u32,
    /// The relative identifier of each principal.
    pub rids: Vec<(String, u32)>,
}

/// The list.
#[derive(Clone, Debug, PartialEq, Eq)]
pub struct PlainDb {
    /// Realm.
    pub realm: String,
    /// Entries.
    pub entries: Vec<PlainEntry>,
    /// Identifiers, where the list has them.
    pub sids: Option<SidTrailer>,
}

/// What an entry says.
#[verifier::ext_equal]
pub struct PlainView {
    /// Name.
    pub name: NameView,
    /// Salt.
    pub salt: Seq<u8>,
    /// Pre-authentication is required.
    pub requires_preauth: bool,
    /// Longest ticket life in seconds.
    pub max_life: u64,
    /// Keys.
    pub keys: Seq<KeyView>,
    /// No tickets are given.
    pub locked: bool,
    /// Password expiry (0: never).
    pub pw_expire: u32,
}

/// What the identifiers say.
#[verifier::ext_equal]
pub struct TrailerView {
    /// The domain identifier as text.
    pub sddl: Seq<char>,
    /// The next relative identifier.
    pub next_rid: u32,
    /// The relative identifier of each principal.
    pub rids: Seq<(Seq<char>, u32)>,
}

/// What the list says.
#[verifier::ext_equal]
pub struct PlainDbView {
    /// Realm.
    pub realm: Seq<char>,
    /// Entries.
    pub entries: Seq<PlainView>,
    /// Identifiers, where the list has them.
    pub sids: Option<TrailerView>,
}

impl View for PlainEntry {
    type V = PlainView;

    open spec fn view(&self) -> PlainView {
        PlainView {
            name: self.name@,
            salt: self.salt@,
            requires_preauth: self.requires_preauth,
            max_life: self.max_life,
            keys: key_views(self.keys@),
            locked: self.locked,
            pw_expire: self.pw_expire,
        }
    }
}

/// What entries say.
pub open spec fn plain_views(v: Seq<PlainEntry>) -> Seq<PlainView> {
    v.map_values(|e: PlainEntry| e@)
}

/// What relative identifiers say.
pub open spec fn rid_views(v: Seq<(String, u32)>) -> Seq<(Seq<char>, u32)> {
    v.map_values(|r: (String, u32)| (r.0@, r.1))
}

impl View for SidTrailer {
    type V = TrailerView;

    open spec fn view(&self) -> TrailerView {
        TrailerView { sddl: self.sddl@, next_rid: self.next_rid, rids: rid_views(self.rids@) }
    }
}

impl View for PlainDb {
    type V = PlainDbView;

    open spec fn view(&self) -> PlainDbView {
        PlainDbView {
            realm: self.realm@,
            entries: plain_views(self.entries@),
            sids: match self.sids {
                Some(t) => Some(t@),
                None => None,
            },
        }
    }
}

/// The error of a list that ends too early.
pub open spec fn eof() -> PersistErrorView {
    PersistErrorView::Format("eof"@)
}

/// An octet at `i`, and what stands behind it.
pub open spec fn octet_at(b: Seq<u8>, i: int) -> Result<(u8, int), PersistErrorView> {
    if i >= b.len() {
        Err(eof())
    } else {
        Ok((b[i], i + 1))
    }
}

/// A word at `i`, and what stands behind it.
pub open spec fn word_at(b: Seq<u8>, i: int) -> Result<(u32, int), PersistErrorView> {
    if i + 4 > b.len() {
        Err(eof())
    } else {
        Ok((from_be32(b, i), i + 4))
    }
}

/// A double word at `i`, and what stands behind it.
pub open spec fn long_at(b: Seq<u8>, i: int) -> Result<(u64, int), PersistErrorView> {
    if i + 8 > b.len() {
        Err(eof())
    } else {
        Ok((from_be64(b, i), i + 8))
    }
}

/// A signed word.
pub open spec fn signed(v: u32) -> i32 {
    if v <= 0x7fff_ffff {
        v as i32
    } else {
        (v - 0x1_0000_0000) as i32
    }
}

/// The word of a signed number.
pub open spec fn unsigned(v: i32) -> u32 {
    if v >= 0 {
        v as u32
    } else {
        (v + 0x1_0000_0000) as u32
    }
}

/// An octet string at `i`, and what stands behind it.
pub open spec fn string_at(b: Seq<u8>, i: int) -> Result<(Seq<u8>, int), PersistErrorView> {
    match word_at(b, i) {
        Err(e) => Err(e),
        Ok((n, j)) => if j + n > b.len() {
            Err(eof())
        } else {
            Ok((b.subrange(j, j + n), j + n))
        },
    }
}

/// A text at `i`, and what stands behind it.
pub open spec fn text_at(b: Seq<u8>, i: int) -> Result<(Seq<char>, int), PersistErrorView> {
    match string_at(b, i) {
        Err(e) => Err(e),
        Ok((s, j)) => if valid_utf8(s) {
            Ok((decode_utf8(s), j))
        } else {
            Err(PersistErrorView::Format("utf8"@))
        },
    }
}

/// What is said of keys and names that cannot be used.
pub struct Refusals<'a> {
    /// Key types that are known, with the length of their keys.
    pub shapes: &'a [KeyShape],
    /// What is said of a key whose type or length is not known.
    pub key: &'a str,
    /// What is said of a name that is not ASCII.
    pub name: &'a str,
}

/// A key at `i`, and what stands behind it.
pub open spec fn key_at(b: Seq<u8>, i: int, w: Refusals) -> Result<
    (KeyView, int),
    PersistErrorView,
> {
    match word_at(b, i) {
        Err(e) => Err(e),
        Ok((et, _)) => match word_at(b, i + 4) {
            Err(e) => Err(e),
            Ok((kvno, _)) => match string_at(b, i + 8) {
                Err(e) => Err(e),
                Ok((k, j)) => if key_ok(w.shapes@, signed(et), k.len()) {
                    Ok(
                        (
                            KeyView {
                                etype: signed(et),
                                kvno,
                                key: k,
                                salt_type: None,
                                kdb_salt: None,
                            },
                            j,
                        ),
                    )
                } else {
                    Err(PersistErrorView::Crypto(w.key@))
                },
            },
        },
    }
}

/// `n` keys from `i` on, and what stands behind them.
pub open spec fn keys_at(b: Seq<u8>, i: int, n: nat, w: Refusals) -> Result<
    (Seq<KeyView>, int),
    PersistErrorView,
>
    decreases n,
{
    if n == 0 {
        Ok((Seq::empty(), i))
    } else {
        match keys_at(b, i, (n - 1) as nat, w) {
            Err(e) => Err(e),
            Ok((v, j)) => match key_at(b, j, w) {
                Err(e) => Err(e),
                Ok((k, next)) => Ok((v.push(k), next)),
            },
        }
    }
}

/// What an entry starts with: name, type, salt, flag, life and keys.
pub open spec fn front_at(b: Seq<u8>, i: int, w: Refusals) -> Result<
    (Seq<char>, i32, Seq<u8>, bool, u64, Seq<KeyView>, int),
    PersistErrorView,
> {
    match text_at(b, i) {
        Err(e) => Err(e),
        Ok((name, i1)) => match word_at(b, i1) {
            Err(e) => Err(e),
            Ok((ty, i2)) => match string_at(b, i2) {
                Err(e) => Err(e),
                Ok((salt, i3)) => match octet_at(b, i3) {
                    Err(e) => Err(e),
                    Ok((pre, i4)) => match long_at(b, i4) {
                        Err(e) => Err(e),
                        Ok((life, i5)) => match word_at(b, i5) {
                            Err(e) => Err(e),
                            Ok((n, i6)) => match keys_at(b, i6, n as nat, w) {
                                Err(e) => Err(e),
                                Ok((ks, i7)) => Ok(
                                    (name, signed(ty), salt, pre != 0, life, ks, i7),
                                ),
                            },
                        },
                    },
                },
            },
        },
    }
}

/// What an entry ends with: nothing in the first format; in the second an
/// octet string that is not used, and then as in the third whether it is
/// locked, and when its password expires.
pub open spec fn back_at(b: Seq<u8>, i: int, v2: bool, v3: bool) -> Result<
    (bool, u32, int),
    PersistErrorView,
> {
    let skipped = if v2 && i < b.len() {
        string_at(b, i)
    } else {
        Ok((Seq::empty(), i))
    };
    match skipped {
        Err(e) => Err(e),
        Ok((_, j)) => if v2 || v3 {
            match octet_at(b, j) {
                Err(e) => Err(e),
                Ok((locked, k)) => match word_at(b, k) {
                    Err(e) => Err(e),
                    Ok((expire, l)) => Ok((locked != 0, expire, l)),
                },
            }
        } else {
            Ok((false, 0, j))
        },
    }
}

/// An entry at `i`, and what stands behind it.
#[verifier::opaque]
pub open spec fn entry_at(b: Seq<u8>, i: int, v2: bool, v3: bool, w: Refusals) -> Result<
    (PlainView, int),
    PersistErrorView,
> {
    match front_at(b, i, w) {
        Err(e) => Err(e),
        Ok((text, name_type, salt, requires_preauth, max_life, keys, j)) => {
            let parts = split(text, '/');
            if !ascii_parts(parts) {
                Err(PersistErrorView::Format(w.name@))
            } else {
                match back_at(b, j, v2, v3) {
                    Err(e) => Err(e),
                    Ok((locked, pw_expire, k)) => Ok(
                        (
                            PlainView {
                                name: NameView { name_type, components: parts },
                                salt,
                                requires_preauth,
                                max_life,
                                keys,
                                locked,
                                pw_expire,
                            },
                            k,
                        ),
                    ),
                }
            }
        },
    }
}

/// `n` entries from `i` on, and what stands behind them.
pub open spec fn entries_at(b: Seq<u8>, i: int, n: nat, v2: bool, v3: bool, w: Refusals) -> Result<
    (Seq<PlainView>, int),
    PersistErrorView,
>
    decreases n,
{
    if n == 0 {
        Ok((Seq::empty(), i))
    } else {
        match entries_at(b, i, (n - 1) as nat, v2, v3, w) {
            Err(e) => Err(e),
            Ok((v, j)) => match entry_at(b, j, v2, v3, w) {
                Err(e) => Err(e),
                Ok((p, next)) => Ok((v.push(p), next)),
            },
        }
    }
}

/// `n` principals with their relative identifiers from `i` on.
pub open spec fn rids_at(b: Seq<u8>, i: int, n: nat) -> Result<
    (Seq<(Seq<char>, u32)>, int),
    PersistErrorView,
>
    decreases n,
{
    if n == 0 {
        Ok((Seq::empty(), i))
    } else {
        match rids_at(b, i, (n - 1) as nat) {
            Err(e) => Err(e),
            Ok((v, j)) => match text_at(b, j) {
                Err(e) => Err(e),
                Ok((id, k)) => match word_at(b, k) {
                    Err(e) => Err(e),
                    Ok((rid, next)) => Ok((v.push((id, rid)), next)),
                },
            },
        }
    }
}

/// `SID1` stands at `i`.
pub open spec fn has_trailer(b: Seq<u8>, i: int) -> bool {
    i + 4 <= b.len() && b[i] == 0x53 && b[i + 1] == 0x49 && b[i + 2] == 0x44 && b[i + 3] == 0x31
}

/// The identifiers from `i` on; `sid_valid` says whether the domain identifier in
/// them can be read.
#[verifier::opaque]
pub open spec fn trailer_at(b: Seq<u8>, i: int, sid_valid: bool) -> Result<
    TrailerView,
    PersistErrorView,
> {
    match text_at(b, i) {
        Err(e) => Err(e),
        Ok((sddl, j)) => if !sid_valid {
            Err(PersistErrorView::Format("SID1 trailer is not valid SDDL: "@ + sddl))
        } else {
            match word_at(b, j) {
                Err(e) => Err(e),
                Ok((next_rid, k)) => match word_at(b, k) {
                    Err(e) => Err(e),
                    Ok((n, l)) => match rids_at(b, l, n as nat) {
                        Err(e) => Err(e),
                        Ok((rids, _)) => Ok(TrailerView { sddl, next_rid, rids }),
                    },
                },
            }
        },
    }
}

/// The list that octets say.
pub open spec fn plain_of(b: Seq<u8>, v2: bool, v3: bool, w: Refusals, sid_valid: bool) -> Result<
    PlainDbView,
    PersistErrorView,
> {
    match text_at(b, 0) {
        Err(e) => Err(e),
        Ok((realm, i)) => match word_at(b, i) {
            Err(e) => Err(e),
            Ok((n, j)) => match entries_at(b, j, n as nat, v2, v3, w) {
                Err(e) => Err(e),
                Ok((entries, k)) => if has_trailer(b, k) {
                    match trailer_at(b, k + 4, sid_valid) {
                        Err(e) => Err(e),
                        Ok(t) => Ok(PlainDbView { realm, entries, sids: Some(t) }),
                    }
                } else {
                    Ok(PlainDbView { realm, entries, sids: None })
                },
            },
        },
    }
}

/// The error of a list that ends too early.
fn end_of_list() -> (r: PersistError)
    ensures
        r@ == eof(),
{
    PersistError::Format("eof".to_owned())
}

fn take_u8(b: &[u8], i: usize) -> (r: Result<(u8, usize), PersistError>)
    ensures
        match r {
            Ok((v, j)) => octet_at(b@, i as int) == Ok::<(u8, int), PersistErrorView>(
                (v, j as int),
            ) && j <= b@.len(),
            Err(e) => octet_at(b@, i as int) == Err::<(u8, int), PersistErrorView>(e@),
        },
{
    if i >= b.len() {
        return Err(end_of_list());
    }
    Ok((b[i], i + 1))
}

fn take_u32(b: &[u8], i: usize) -> (r: Result<(u32, usize), PersistError>)
    requires
        i <= b@.len(),
    ensures
        match r {
            Ok((v, j)) => word_at(b@, i as int) == Ok::<(u32, int), PersistErrorView>(
                (v, j as int),
            ) && j <= b@.len(),
            Err(e) => word_at(b@, i as int) == Err::<(u32, int), PersistErrorView>(e@),
        },
{
    if b.len() - i < 4 {
        return Err(end_of_list());
    }
    Ok((get_be32(b, i), i + 4))
}

fn take_u64(b: &[u8], i: usize) -> (r: Result<(u64, usize), PersistError>)
    requires
        i <= b@.len(),
    ensures
        match r {
            Ok((v, j)) => long_at(b@, i as int) == Ok::<(u64, int), PersistErrorView>(
                (v, j as int),
            ) && j <= b@.len(),
            Err(e) => long_at(b@, i as int) == Err::<(u64, int), PersistErrorView>(e@),
        },
{
    if b.len() - i < 8 {
        return Err(end_of_list());
    }
    Ok((get_be64(b, i), i + 8))
}

fn take_bytes(b: &[u8], i: usize) -> (r: Result<(Vec<u8>, usize), PersistError>)
    requires
        i <= b@.len(),
    ensures
        match r {
            Ok((v, j)) => string_at(b@, i as int) == Ok::<(Seq<u8>, int), PersistErrorView>(
                (v@, j as int),
            ) && j <= b@.len(),
            Err(e) => string_at(b@, i as int) == Err::<(Seq<u8>, int), PersistErrorView>(e@),
        },
{
    let (n, j): (u32, usize) = match take_u32(b, i) {
        Ok(t) => t,
        Err(e) => {
            return Err(e);
        },
    };
    if b.len() - j < n as usize {
        return Err(end_of_list());
    }
    let end: usize = j + n as usize;
    Ok((copy_range(b, j, end), end))
}

fn take_str(b: &[u8], i: usize) -> (r: Result<(String, usize), PersistError>)
    requires
        i <= b@.len(),
    ensures
        match r {
            Ok((v, j)) => text_at(b@, i as int) == Ok::<(Seq<char>, int), PersistErrorView>(
                (v@, j as int),
            ) && j <= b@.len(),
            Err(e) => text_at(b@, i as int) == Err::<(Seq<char>, int), PersistErrorView>(e@),
        },
{
    let (s, j): (Vec<u8>, usize) = match take_bytes(b, i) {
        Ok(t) => t,
        Err(e) => {
            return Err(e);
        },
    };
    match utf8_text(s.as_slice()) {
        Some(t) => Ok((t.to_owned(), j)),
        None => Err(PersistError::Format("utf8".to_owned())),
    }
}

fn to_signed(v: u32) -> (r: i32)
    ensures
        r == signed(v),
{
    if v <= 0x7fff_ffff {
        v as i32
    } else {
        (v as i64 - 0x1_0000_0000) as i32
    }
}

fn take_key(b: &[u8], i: usize, w: &Refusals) -> (r: Result<(KeyEntry, usize), PersistError>)
    requires
        i <= b@.len(),
    ensures
        match r {
            Ok((v, j)) => key_at(b@, i as int, *w) == Ok::<(KeyView, int), PersistErrorView>(
                (v@, j as int),
            ) && j <= b@.len(),
            Err(e) => key_at(b@, i as int, *w) == Err::<(KeyView, int), PersistErrorView>(e@),
        },
{
    let (et, i1): (u32, usize) = match take_u32(b, i) {
        Ok(t) => t,
        Err(e) => {
            return Err(e);
        },
    };
    let (kvno, i2): (u32, usize) = match take_u32(b, i1) {
        Ok(t) => t,
        Err(e) => {
            return Err(e);
        },
    };
    let (key, i3): (Vec<u8>, usize) = match take_bytes(b, i2) {
        Ok(t) => t,
        Err(e) => {
            return Err(e);
        },
    };
    let etype: i32 = to_signed(et);
    if !is_key_ok(w.shapes, etype, key.len()) {
        return Err(PersistError::Crypto(w.key.to_owned()));
    }
    Ok((KeyEntry { etype, kvno, key, salt_type: None, kdb_salt: None }, i3))
}

/// Keys of which one is wrong are wrong with more behind them too.
proof fn lemma_keys_fail(b: Seq<u8>, i: int, k: nat, n: nat, w: Refusals)
    requires
        k <= n,
        keys_at(b, i, k, w) is Err,
    ensures
        keys_at(b, i, n, w) == keys_at(b, i, k, w),
    decreases n,
{
    if k < n {
        lemma_keys_fail(b, i, k, (n - 1) as nat, w);
    }
}

fn take_keys(b: &[u8], i: usize, n: u32, w: &Refusals) -> (r: Result<
    (Vec<KeyEntry>, usize),
    PersistError,
>)
    requires
        i <= b@.len(),
    ensures
        match r {
            Ok((v, j)) => keys_at(b@, i as int, n as nat, *w) == Ok::<
                (Seq<KeyView>, int),
                PersistErrorView,
            >((key_views(v@), j as int)) && j <= b@.len(),
            Err(e) => keys_at(b@, i as int, n as nat, *w) == Err::<
                (Seq<KeyView>, int),
                PersistErrorView,
            >(e@),
        },
{
    let mut out: Vec<KeyEntry> = Vec::new();
    let mut at: usize = i;
    let mut k: u32 = 0;
    proof {
        assert(key_views(out@) =~= Seq::<KeyView>::empty());
    }
    while k < n
        invariant
            k <= n,
            at <= b@.len(),
            keys_at(b@, i as int, k as nat, *w) == Ok::<(Seq<KeyView>, int), PersistErrorView>(
                (key_views(out@), at as int),
            ),
        decreases n - k,
    {
        let ghost before = out@;
        match take_key(b, at, w) {
            Ok((one, next)) => {
                let ghost view = one@;
                out.push(one);
                proof {
                    assert(key_views(out@) =~= key_views(before).push(view));
                }
                at = next;
            },
            Err(e) => {
                proof {
                    lemma_keys_fail(b@, i as int, (k + 1) as nat, n as nat, *w);
                }
                return Err(e);
            },
        }
        k = k + 1;
    }
    Ok((out, at))
}

/// Reads what an entry ends with.
fn take_back(b: &[u8], i: usize, v2: bool, v3: bool) -> (r: Result<
    (bool, u32, usize),
    PersistError,
>)
    requires
        i <= b@.len(),
    ensures
        match r {
            Ok((l, p, j)) => back_at(b@, i as int, v2, v3) == Ok::<
                (bool, u32, int),
                PersistErrorView,
            >((l, p, j as int)) && j <= b@.len(),
            Err(e) => back_at(b@, i as int, v2, v3) == Err::<(bool, u32, int), PersistErrorView>(
                e@,
            ),
        },
{
    let mut at: usize = i;
    if v2 && i < b.len() {
        match take_bytes(b, i) {
            Ok((_, j)) => {
                at = j;
            },
            Err(e) => {
                return Err(e);
            },
        }
    }
    if !v2 && !v3 {
        return Ok((false, 0, at));
    }
    let (locked, j): (u8, usize) = match take_u8(b, at) {
        Ok(t) => t,
        Err(e) => {
            return Err(e);
        },
    };
    match take_u32(b, j) {
        Ok((expire, k)) => Ok((locked != 0, expire, k)),
        Err(e) => Err(e),
    }
}

fn take_entry(b: &[u8], i: usize, v2: bool, v3: bool, w: &Refusals) -> (r: Result<
    (PlainEntry, usize),
    PersistError,
>)
    requires
        i <= b@.len(),
    ensures
        match r {
            Ok((v, j)) => entry_at(b@, i as int, v2, v3, *w) == Ok::<
                (PlainView, int),
                PersistErrorView,
            >((v@, j as int)) && j <= b@.len(),
            Err(e) => entry_at(b@, i as int, v2, v3, *w) == Err::<
                (PlainView, int),
                PersistErrorView,
            >(e@),
        },
{
    proof {
        reveal(entry_at);
    }
    let (text, i1): (String, usize) = match take_str(b, i) {
        Ok(t) => t,
        Err(e) => {
            return Err(e);
        },
    };
    let (ty, i2): (u32, usize) = match take_u32(b, i1) {
        Ok(t) => t,
        Err(e) => {
            return Err(e);
        },
    };
    let (salt, i3): (Vec<u8>, usize) = match take_bytes(b, i2) {
        Ok(t) => t,
        Err(e) => {
            return Err(e);
        },
    };
    let (pre, i4): (u8, usize) = match take_u8(b, i3) {
        Ok(t) => t,
        Err(e) => {
            return Err(e);
        },
    };
    let (max_life, i5): (u64, usize) = match take_u64(b, i4) {
        Ok(t) => t,
        Err(e) => {
            return Err(e);
        },
    };
    let (n, i6): (u32, usize) = match take_u32(b, i5) {
        Ok(t) => t,
        Err(e) => {
            return Err(e);
        },
    };
    let (keys, i7): (Vec<KeyEntry>, usize) = match take_keys(b, i6, n, w) {
        Ok(t) => t,
        Err(e) => {
            return Err(e);
        },
    };
    let cs = chars_of(text.as_str());
    let parts: Vec<String> = split_chars(cs.as_slice(), '/');
    let name: PrincipalName = match PrincipalName::try_new(to_signed(ty), parts) {
        Some(p) => p,
        None => {
            return Err(PersistError::Format(w.name.to_owned()));
        },
    };
    match take_back(b, i7, v2, v3) {
        Ok((locked, pw_expire, j)) => Ok(
            (
                PlainEntry {
                    name,
                    salt,
                    requires_preauth: pre != 0,
                    max_life,
                    keys,
                    locked,
                    pw_expire,
                },
                j,
            ),
        ),
        Err(e) => Err(e),
    }
}

/// Entries of which one is wrong are wrong with more behind them too.
proof fn lemma_entries_fail(b: Seq<u8>, i: int, k: nat, n: nat, v2: bool, v3: bool, w: Refusals)
    requires
        k <= n,
        entries_at(b, i, k, v2, v3, w) is Err,
    ensures
        entries_at(b, i, n, v2, v3, w) == entries_at(b, i, k, v2, v3, w),
    decreases n,
{
    if k < n {
        lemma_entries_fail(b, i, k, (n - 1) as nat, v2, v3, w);
    }
}

/// The same of relative identifiers.
proof fn lemma_rids_fail(b: Seq<u8>, i: int, k: nat, n: nat)
    requires
        k <= n,
        rids_at(b, i, k) is Err,
    ensures
        rids_at(b, i, n) == rids_at(b, i, k),
    decreases n,
{
    if k < n {
        lemma_rids_fail(b, i, k, (n - 1) as nat);
    }
}

fn take_rids(b: &[u8], i: usize, n: u32) -> (r: Result<(Vec<(String, u32)>, usize), PersistError>)
    requires
        i <= b@.len(),
    ensures
        match r {
            Ok((v, j)) => rids_at(b@, i as int, n as nat) == Ok::<
                (Seq<(Seq<char>, u32)>, int),
                PersistErrorView,
            >((rid_views(v@), j as int)) && j <= b@.len(),
            Err(e) => rids_at(b@, i as int, n as nat) == Err::<
                (Seq<(Seq<char>, u32)>, int),
                PersistErrorView,
            >(e@),
        },
{
    let mut out: Vec<(String, u32)> = Vec::new();
    let mut at: usize = i;
    let mut k: u32 = 0;
    proof {
        assert(rid_views(out@) =~= Seq::<(Seq<char>, u32)>::empty());
    }
    while k < n
        invariant
            k <= n,
            at <= b@.len(),
            rids_at(b@, i as int, k as nat) == Ok::<
                (Seq<(Seq<char>, u32)>, int),
                PersistErrorView,
            >((rid_views(out@), at as int)),
        decreases n - k,
    {
        let ghost before = out@;
        let (id, j): (String, usize) = match take_str(b, at) {
            Ok(t) => t,
            Err(e) => {
                proof {
                    lemma_rids_fail(b@, i as int, (k + 1) as nat, n as nat);
                }
                return Err(e);
            },
        };
        let (rid, next): (u32, usize) = match take_u32(b, j) {
            Ok(t) => t,
            Err(e) => {
                proof {
                    lemma_rids_fail(b@, i as int, (k + 1) as nat, n as nat);
                }
                return Err(e);
            },
        };
        let ghost view = (id@, rid);
        out.push((id, rid));
        proof {
            assert(rid_views(out@) =~= rid_views(before).push(view));
        }
        at = next;
        k = k + 1;
    }
    Ok((out, at))
}

fn take_trailer(b: &[u8], i: usize, sid_valid: bool) -> (r: Result<SidTrailer, PersistError>)
    requires
        i <= b@.len(),
    ensures
        match r {
            Ok(v) => trailer_at(b@, i as int, sid_valid) == Ok::<TrailerView, PersistErrorView>(v@),
            Err(e) => trailer_at(b@, i as int, sid_valid) == Err::<TrailerView, PersistErrorView>(
                e@,
            ),
        },
{
    proof {
        reveal(trailer_at);
    }
    let (sddl, j): (String, usize) = match take_str(b, i) {
        Ok(t) => t,
        Err(e) => {
            return Err(e);
        },
    };
    if !sid_valid {
        return Err(
            PersistError::Format(concat("SID1 trailer is not valid SDDL: ", sddl.as_str())),
        );
    }
    let (next_rid, k): (u32, usize) = match take_u32(b, j) {
        Ok(t) => t,
        Err(e) => {
            return Err(e);
        },
    };
    let (n, l): (u32, usize) = match take_u32(b, k) {
        Ok(t) => t,
        Err(e) => {
            return Err(e);
        },
    };
    match take_rids(b, l, n) {
        Ok((rids, _)) => Ok(SidTrailer { sddl, next_rid, rids }),
        Err(e) => Err(e),
    }
}

/// The realm and the entries that octets say, and where they end.
pub open spec fn body_at(b: Seq<u8>, v2: bool, v3: bool, w: Refusals) -> Result<
    (Seq<char>, Seq<PlainView>, int),
    PersistErrorView,
> {
    match text_at(b, 0) {
        Err(e) => Err(e),
        Ok((realm, i)) => match word_at(b, i) {
            Err(e) => Err(e),
            Ok((n, j)) => match entries_at(b, j, n as nat, v2, v3, w) {
                Err(e) => Err(e),
                Ok((entries, k)) => Ok((realm, entries, k)),
            },
        },
    }
}

/// `valid` gave `ok` for the domain identifier in a list, where it has one that
/// can be read as text.
pub open spec fn sid_asked<V: Fn(&str) -> bool>(
    b: Seq<u8>,
    v2: bool,
    v3: bool,
    w: Refusals,
    valid: V,
    ok: bool,
) -> bool {
    match body_at(b, v2, v3, w) {
        Ok((_, _, k)) if has_trailer(b, k) => match text_at(b, k + 4) {
            Ok((sddl, _)) => exists|t: &str| t@ == sddl && #[trigger] call_ensures(valid, (t,), ok),
            Err(_) => ok,
        },
        _ => ok,
    }
}

/// Reads the realm and the entries of a list.
fn take_body(b: &[u8], v2: bool, v3: bool, w: &Refusals) -> (r: Result<
    (String, Vec<PlainEntry>, usize),
    PersistError,
>)
    ensures
        match r {
            Ok((realm, entries, at)) => at <= b@.len() && body_at(b@, v2, v3, *w) == Ok::<
                (Seq<char>, Seq<PlainView>, int),
                PersistErrorView,
            >((realm@, plain_views(entries@), at as int)),
            Err(e) => body_at(b@, v2, v3, *w) == Err::<
                (Seq<char>, Seq<PlainView>, int),
                PersistErrorView,
            >(e@),
        },
{
    let (realm, i): (String, usize) = match take_str(b, 0) {
        Ok(t) => t,
        Err(e) => {
            return Err(e);
        },
    };
    let (n, j): (u32, usize) = match take_u32(b, i) {
        Ok(t) => t,
        Err(e) => {
            return Err(e);
        },
    };
    let mut entries: Vec<PlainEntry> = Vec::new();
    let mut at: usize = j;
    let mut k: u32 = 0;
    proof {
        assert(plain_views(entries@) =~= Seq::<PlainView>::empty());
    }
    while k < n
        invariant
            k <= n,
            at <= b@.len(),
            text_at(b@, 0) == Ok::<(Seq<char>, int), PersistErrorView>((realm@, i as int)),
            word_at(b@, i as int) == Ok::<(u32, int), PersistErrorView>((n, j as int)),
            entries_at(b@, j as int, k as nat, v2, v3, *w) == Ok::<
                (Seq<PlainView>, int),
                PersistErrorView,
            >((plain_views(entries@), at as int)),
        decreases n - k,
    {
        let ghost before = entries@;
        match take_entry(b, at, v2, v3, w) {
            Ok((one, next)) => {
                let ghost view = one@;
                entries.push(one);
                proof {
                    assert(plain_views(entries@) =~= plain_views(before).push(view));
                }
                at = next;
            },
            Err(e) => {
                proof {
                    lemma_entries_fail(b@, j as int, (k + 1) as nat, n as nat, v2, v3, *w);
                }
                return Err(e);
            },
        }
        k = k + 1;
    }
    Ok((realm, entries, at))
}

/// Reads a list. `valid` says whether a text is a domain identifier.
pub fn parse_plain<V: Fn(&str) -> bool>(
    b: &[u8],
    v2: bool,
    v3: bool,
    w: &Refusals,
    valid: &V,
) -> (r: Result<PlainDb, PersistError>)
    requires
        forall|t: &str| #[trigger] call_requires(*valid, (t,)),
    ensures
        exists|ok: bool| #[trigger]
            sid_asked(b@, v2, v3, *w, *valid, ok) && plain_of(b@, v2, v3, *w, ok) == (match r {
                Ok(v) => Ok::<PlainDbView, PersistErrorView>(v@),
                Err(e) => Err::<PlainDbView, PersistErrorView>(e@),
            }),
{
    let (realm, entries, at): (String, Vec<PlainEntry>, usize) = match take_body(b, v2, v3, w) {
        Ok(t) => t,
        Err(e) => {
            assert(sid_asked(b@, v2, v3, *w, *valid, true));
            return Err(e);
        },
    };
    if b.len() - at >= 4 && b[at] == 0x53 && b[at + 1] == 0x49 && b[at + 2] == 0x44 && b[at + 3]
        == 0x31 {
        let ok: bool = match take_str(b, at + 4) {
            Ok((sddl, _)) => valid(sddl.as_str()),
            Err(_) => true,
        };
        assert(sid_asked(b@, v2, v3, *w, *valid, ok));
        return match take_trailer(b, at + 4, ok) {
            Ok(t) => Ok(PlainDb { realm, entries, sids: Some(t) }),
            Err(e) => Err(e),
        };
    }
    assert(sid_asked(b@, v2, v3, *w, *valid, true));
    Ok(PlainDb { realm, entries, sids: None })
}

/// The octets of an octet string. A length that no word holds is written as
/// zero.
pub open spec fn string_bytes(s: Seq<u8>) -> Seq<u8> {
    be32(count(s.len())) + s
}

/// The word of a count; zero where no word holds it.
pub open spec fn count(n: nat) -> u32 {
    if n <= u32::MAX {
        n as u32
    } else {
        0
    }
}

/// The octet of a flag.
pub open spec fn flag(x: bool) -> Seq<u8> {
    if x {
        seq![1u8]
    } else {
        seq![0u8]
    }
}

/// The octets of a key.
pub open spec fn key_bytes(k: KeyView) -> Seq<u8> {
    be32(unsigned(k.etype)) + be32(k.kvno) + string_bytes(k.key)
}

/// The octets of keys.
pub open spec fn keys_bytes(v: Seq<KeyView>) -> Seq<u8>
    decreases v.len(),
{
    if v.len() == 0 {
        Seq::empty()
    } else {
        keys_bytes(v.drop_last()) + key_bytes(v.last())
    }
}

/// The octets that an entry starts with.
pub open spec fn front_bytes(e: PlainView) -> Seq<u8> {
    string_bytes(encode_utf8(e.name.joined())) + be32(unsigned(e.name.name_type)) + string_bytes(
        e.salt,
    ) + flag(e.requires_preauth) + be64(e.max_life) + be32(count(e.keys.len())) + keys_bytes(e.keys)
}

/// The octets of an entry.
pub open spec fn entry_bytes(e: PlainView) -> Seq<u8> {
    front_bytes(e) + (flag(e.locked) + be32(e.pw_expire))
}

/// The octets of entries.
pub open spec fn entries_bytes(v: Seq<PlainView>) -> Seq<u8>
    decreases v.len(),
{
    if v.len() == 0 {
        Seq::empty()
    } else {
        entries_bytes(v.drop_last()) + entry_bytes(v.last())
    }
}

/// The octets of relative identifiers.
pub open spec fn rids_bytes(v: Seq<(Seq<char>, u32)>) -> Seq<u8>
    decreases v.len(),
{
    if v.len() == 0 {
        Seq::empty()
    } else {
        rids_bytes(v.drop_last()) + (string_bytes(encode_utf8(v.last().0)) + be32(v.last().1))
    }
}

/// The octets of the identifiers.
pub open spec fn trailer_bytes(t: TrailerView) -> Seq<u8> {
    string_bytes(encode_utf8(t.sddl)) + be32(t.next_rid) + be32(count(t.rids.len())) + rids_bytes(
        t.rids,
    )
}

/// The octets of a list of the third format.
pub open spec fn plain_bytes(realm: Seq<char>, entries: Seq<PlainView>, t: TrailerView) -> Seq<u8> {
    string_bytes(encode_utf8(realm)) + be32(count(entries.len())) + entries_bytes(entries) + (seq![
        0x53u8,
        0x49,
        0x44,
        0x31,
    ] + trailer_bytes(t))
}

fn put_string(out: &mut Vec<u8>, b: &[u8])
    ensures
        final(out)@ == old(out)@ + string_bytes(b@),
{
    put_be32(out, count_of(b.len()));
    append(out, b);
    proof {
        assert(out@ =~= old(out)@ + string_bytes(b@));
    }
}

fn count_of(n: usize) -> (r: u32)
    ensures
        r == count(n as nat),
{
    if n as u64 <= 0xffff_ffff {
        n as u32
    } else {
        0
    }
}

fn to_unsigned(v: i32) -> (r: u32)
    ensures
        r == unsigned(v),
{
    if v >= 0 {
        v as u32
    } else {
        (v as i64 + 0x1_0000_0000) as u32
    }
}

fn put_flag(out: &mut Vec<u8>, x: bool)
    ensures
        final(out)@ == old(out)@ + flag(x),
{
    if x {
        out.push(1);
    } else {
        out.push(0);
    }
    proof {
        assert(out@ =~= old(out)@ + flag(x));
    }
}

fn put_key_list(out: &mut Vec<u8>, v: &[KeyEntry])
    ensures
        final(out)@ == old(out)@ + keys_bytes(key_views(v@)),
{
    let ghost before = out@;
    let ghost all = key_views(v@);
    let mut i: usize = 0;
    proof {
        assert(all.take(0) =~= Seq::<KeyView>::empty());
        assert(out@ =~= before + keys_bytes(all.take(0)));
    }
    while i < v.len()
        invariant
            i <= v@.len(),
            all == key_views(v@),
            out@ == before + keys_bytes(all.take(i as int)),
        decreases v@.len() - i,
    {
        put_be32(out, to_unsigned(v[i].etype));
        put_be32(out, v[i].kvno);
        put_string(out, v[i].key.as_slice());
        proof {
            assert(all.take(i + 1).drop_last() =~= all.take(i as int));
            assert(all.take(i + 1).last() == v@[i as int]@);
            assert(out@ =~= before + keys_bytes(all.take(i + 1)));
        }
        i = i + 1;
    }
    proof {
        assert(all.take(all.len() as int) =~= all);
    }
}

fn put_entry(out: &mut Vec<u8>, e: &PlainEntry)
    ensures
        final(out)@ == old(out)@ + entry_bytes(e@),
{
    let joined = e.name.components_joined();
    put_string(out, joined.as_str().as_bytes());
    put_be32(out, to_unsigned(e.name.name_type));
    put_string(out, e.salt.as_slice());
    put_flag(out, e.requires_preauth);
    put_be64(out, e.max_life);
    put_be32(out, count_of(e.keys.len()));
    put_key_list(out, e.keys.as_slice());
    proof {
        assert(out@ =~= old(out)@ + front_bytes(e@));
    }
    let ghost mid = out@;
    put_flag(out, e.locked);
    put_be32(out, e.pw_expire);
    proof {
        assert(out@ =~= mid + (flag(e.locked) + be32(e.pw_expire)));
        assert(out@ =~= old(out)@ + entry_bytes(e@));
    }
}

fn put_rids(out: &mut Vec<u8>, v: &[(String, u32)])
    ensures
        final(out)@ == old(out)@ + rids_bytes(rid_views(v@)),
{
    let ghost before = out@;
    let ghost all = rid_views(v@);
    let mut i: usize = 0;
    proof {
        assert(all.take(0) =~= Seq::<(Seq<char>, u32)>::empty());
        assert(out@ =~= before + rids_bytes(all.take(0)));
    }
    while i < v.len()
        invariant
            i <= v@.len(),
            all == rid_views(v@),
            out@ == before + rids_bytes(all.take(i as int)),
        decreases v@.len() - i,
    {
        put_string(out, v[i].0.as_str().as_bytes());
        put_be32(out, v[i].1);
        proof {
            assert(all.take(i + 1).drop_last() =~= all.take(i as int));
            assert(all.take(i + 1).last() == (v@[i as int].0@, v@[i as int].1));
            assert(out@ =~= before + rids_bytes(all.take(i + 1)));
        }
        i = i + 1;
    }
    proof {
        assert(all.take(all.len() as int) =~= all);
    }
}

fn put_trailer(out: &mut Vec<u8>, t: &SidTrailer)
    ensures
        final(out)@ == old(out)@ + (seq![0x53u8, 0x49, 0x44, 0x31] + trailer_bytes(t@)),
{
    out.push(0x53);
    out.push(0x49);
    out.push(0x44);
    out.push(0x31);
    let ghost mid = out@;
    put_string(out, t.sddl.as_str().as_bytes());
    put_be32(out, t.next_rid);
    put_be32(out, count_of(t.rids.len()));
    put_rids(out, t.rids.as_slice());
    proof {
        assert(out@ =~= mid + trailer_bytes(t@));
        assert(mid =~= old(out)@ + seq![0x53u8, 0x49, 0x44, 0x31]);
        assert(out@ =~= old(out)@ + (seq![0x53u8, 0x49, 0x44, 0x31] + trailer_bytes(t@)));
    }
}

/// Writes a list of the third format.
pub fn serialize_plain(realm: &str, entries: &[PlainEntry], t: &SidTrailer) -> (r: Vec<u8>)
    ensures
        r@ == plain_bytes(realm@, plain_views(entries@), t@),
{
    let mut out: Vec<u8> = Vec::new();
    put_string(&mut out, realm.as_bytes());
    put_be32(&mut out, count_of(entries.len()));
    let ghost front = out@;
    let ghost all = plain_views(entries@);
    let mut i: usize = 0;
    proof {
        assert(front =~= string_bytes(encode_utf8(realm@)) + be32(count(all.len())));
        assert(all.take(0) =~= Seq::<PlainView>::empty());
        assert(out@ =~= front + entries_bytes(all.take(0)));
    }
    while i < entries.len()
        invariant
            i <= entries@.len(),
            all == plain_views(entries@),
            out@ == front + entries_bytes(all.take(i as int)),
        decreases entries@.len() - i,
    {
        put_entry(&mut out, &entries[i]);
        proof {
            assert(all.take(i + 1).drop_last() =~= all.take(i as int));
            assert(all.take(i + 1).last() == entries@[i as int]@);
            assert(out@ =~= front + entries_bytes(all.take(i + 1)));
        }
        i = i + 1;
    }
    proof {
        assert(all.take(all.len() as int) =~= all);
    }
    put_trailer(&mut out, t);
    out
}

/// `part` stands in `b` at `i`.
spec fn stands(b: Seq<u8>, i: int, part: Seq<u8>) -> bool {
    0 <= i && i + part.len() <= b.len() && b.subrange(i, i + part.len()) == part
}

/// What stands in front of, and behind, a place in a part.
proof fn lemma_stands_split(b: Seq<u8>, i: int, x: Seq<u8>, y: Seq<u8>)
    requires
        stands(b, i, x + y),
    ensures
        stands(b, i, x),
        stands(b, i + x.len(), y),
{
    let w = b.subrange(i, i + (x + y).len());
    assert(w.subrange(0, x.len() as int) =~= x);
    assert(b.subrange(i, i + x.len()) =~= w.subrange(0, x.len() as int));
    assert(w.subrange(x.len() as int, w.len() as int) =~= y);
    assert(b.subrange(i + x.len(), i + x.len() + y.len()) =~= w.subrange(
        x.len() as int,
        w.len() as int,
    ));
}

/// A word that stands somewhere is read there.
proof fn lemma_word_read(b: Seq<u8>, i: int, v: u32)
    requires
        stands(b, i, be32(v)),
    ensures
        word_at(b, i) == Ok::<(u32, int), PersistErrorView>((v, i + 4)),
{
    lemma_be32_round_trip(v);
    let w = b.subrange(i, i + 4);
    assert(w[0] == b[i] && w[1] == b[i + 1] && w[2] == b[i + 2] && w[3] == b[i + 3]);
    assert(from_be32(b, i) == from_be32(w, 0));
}

/// A double word that stands somewhere is read there.
proof fn lemma_long_read(b: Seq<u8>, i: int, v: u64)
    requires
        stands(b, i, be64(v)),
    ensures
        long_at(b, i) == Ok::<(u64, int), PersistErrorView>((v, i + 8)),
{
    lemma_be64_round_trip(v);
    let w = b.subrange(i, i + 8);
    assert(be64(v).len() == 8);
    assert(forall|k: int| 0 <= k < 8 ==> w[k] == b[i + k]);
    assert(from_be32(b, i) == from_be32(w, 0));
    assert(from_be32(b, i + 4) == from_be32(w, 4));
    assert(from_be64(b, i) == from_be64(w, 0));
}

/// An octet string that stands somewhere is read there.
proof fn lemma_string_read(b: Seq<u8>, i: int, s: Seq<u8>)
    requires
        stands(b, i, string_bytes(s)),
        s.len() <= u32::MAX,
    ensures
        string_at(b, i) == Ok::<(Seq<u8>, int), PersistErrorView>((s, i + 4 + s.len())),
        string_bytes(s).len() == 4 + s.len(),
{
    lemma_stands_split(b, i, be32(s.len() as u32), s);
    lemma_word_read(b, i, s.len() as u32);
}

/// A text that stands somewhere is read there.
proof fn lemma_text_read(b: Seq<u8>, i: int, t: Seq<char>)
    requires
        stands(b, i, string_bytes(encode_utf8(t))),
        encode_utf8(t).len() <= u32::MAX,
    ensures
        text_at(b, i) == Ok::<(Seq<char>, int), PersistErrorView>(
            (t, i + string_bytes(encode_utf8(t)).len()),
        ),
{
    lemma_string_read(b, i, encode_utf8(t));
    vstd::utf8::encode_utf8_valid_utf8(t);
    vstd::utf8::encode_utf8_decode_utf8(t);
}

/// A key that can be written and read.
pub open spec fn writable_key(k: KeyView, shapes: Seq<KeyShape>) -> bool {
    k.key.len() <= u32::MAX && key_ok(shapes, k.etype, k.key.len()) && k.salt_type is None
        && k.kdb_salt is None
}

/// A key that stands somewhere is read there.
proof fn lemma_key_read(b: Seq<u8>, i: int, k: KeyView, w: Refusals)
    requires
        stands(b, i, key_bytes(k)),
        writable_key(k, w.shapes@),
    ensures
        key_at(b, i, w) == Ok::<(KeyView, int), PersistErrorView>((k, i + key_bytes(k).len())),
{
    let a = be32(unsigned(k.etype));
    let c = be32(k.kvno);
    lemma_stands_split(b, i, a + c, string_bytes(k.key));
    lemma_stands_split(b, i, a, c);
    lemma_word_read(b, i, unsigned(k.etype));
    lemma_word_read(b, i + 4, k.kvno);
    lemma_string_read(b, i + 8, k.key);
    assert(signed(unsigned(k.etype)) == k.etype);
}

/// Keys that stand somewhere are read there.
proof fn lemma_keys_read(b: Seq<u8>, i: int, v: Seq<KeyView>, w: Refusals)
    requires
        stands(b, i, keys_bytes(v)),
        forall|k: int| 0 <= k < v.len() ==> writable_key(#[trigger] v[k], w.shapes@),
    ensures
        keys_at(b, i, v.len(), w) == Ok::<(Seq<KeyView>, int), PersistErrorView>(
            (v, i + keys_bytes(v).len()),
        ),
    decreases v.len(),
{
    if v.len() == 0 {
        assert(v =~= Seq::<KeyView>::empty());
    } else {
        let front = v.drop_last();
        lemma_stands_split(b, i, keys_bytes(front), key_bytes(v.last()));
        assert forall|k: int| 0 <= k < front.len() implies writable_key(
            #[trigger] front[k],
            w.shapes@,
        ) by {
            assert(front[k] == v[k]);
        }
        lemma_keys_read(b, i, front, w);
        assert(writable_key(v[v.len() - 1], w.shapes@));
        lemma_key_read(b, i + keys_bytes(front).len(), v.last(), w);
        assert(front.push(v.last()) =~= v);
    }
}

/// An entry that can be written and read.
pub open spec fn writable_entry(e: PlainView, shapes: Seq<KeyShape>) -> bool {
    &&& e.name.components.len() > 0
    &&& forall|i: int|
        0 <= i < e.name.components.len() ==> !(#[trigger] e.name.components[i]).contains('/')
    &&& ascii_parts(e.name.components)
    &&& encode_utf8(e.name.joined()).len() <= u32::MAX
    &&& e.salt.len() <= u32::MAX
    &&& e.keys.len() <= u32::MAX
    &&& forall|i: int| 0 <= i < e.keys.len() ==> writable_key(#[trigger] e.keys[i], shapes)
}

/// The octets of an entry's name.
spec fn name_bytes(e: PlainView) -> Seq<u8> {
    string_bytes(encode_utf8(e.name.joined()))
}

/// The octets behind an entry's salt, as far as its keys.
spec fn rest_bytes(e: PlainView) -> Seq<u8> {
    flag(e.requires_preauth) + be64(e.max_life) + be32(count(e.keys.len())) + keys_bytes(e.keys)
}

/// The two halves of what an entry starts with.
proof fn lemma_front_halves(b: Seq<u8>, i: int, e: PlainView)
    requires
        stands(b, i, front_bytes(e)),
    ensures
        ({
            let a = name_bytes(e) + be32(unsigned(e.name.name_type)) + string_bytes(e.salt);
            &&& stands(b, i, a)
            &&& stands(b, i + a.len(), rest_bytes(e))
            &&& a.len() == name_bytes(e).len() + 4 + string_bytes(e.salt).len()
            &&& front_bytes(e).len() == a.len() + rest_bytes(e).len()
        }),
{
    let a = name_bytes(e) + be32(unsigned(e.name.name_type)) + string_bytes(e.salt);
    assert(front_bytes(e) =~= a + rest_bytes(e));
    lemma_stands_split(b, i, a, rest_bytes(e));
}

/// Name, type and salt are read where they stand.
proof fn lemma_front_name(b: Seq<u8>, i: int, e: PlainView)
    requires
        stands(b, i, name_bytes(e) + be32(unsigned(e.name.name_type)) + string_bytes(e.salt)),
        encode_utf8(e.name.joined()).len() <= u32::MAX,
        e.salt.len() <= u32::MAX,
    ensures
        ({
            let i1 = i + name_bytes(e).len();
            let i3 = i1 + 4 + string_bytes(e.salt).len();
            &&& text_at(b, i) == Ok::<(Seq<char>, int), PersistErrorView>((e.name.joined(), i1))
            &&& word_at(b, i1) == Ok::<(u32, int), PersistErrorView>(
                (unsigned(e.name.name_type), i1 + 4),
            )
            &&& string_at(b, i1 + 4) == Ok::<(Seq<u8>, int), PersistErrorView>((e.salt, i3))
        }),
{
    let p0 = name_bytes(e);
    let p1 = be32(unsigned(e.name.name_type));
    lemma_stands_split(b, i, p0 + p1, string_bytes(e.salt));
    lemma_stands_split(b, i, p0, p1);
    lemma_text_read(b, i, e.name.joined());
    lemma_word_read(b, i + p0.len(), unsigned(e.name.name_type));
    lemma_string_read(b, i + p0.len() + 4, e.salt);
}

/// Flag, life and keys are read where they stand.
proof fn lemma_front_rest(b: Seq<u8>, i: int, e: PlainView, w: Refusals)
    requires
        stands(b, i, rest_bytes(e)),
        e.keys.len() <= u32::MAX,
        forall|k: int| 0 <= k < e.keys.len() ==> writable_key(#[trigger] e.keys[k], w.shapes@),
    ensures
        octet_at(b, i) matches Ok(o) && (o.0 != 0) == e.requires_preauth && o.1 == i + 1,
        long_at(b, i + 1) == Ok::<(u64, int), PersistErrorView>((e.max_life, i + 9)),
        word_at(b, i + 9) == Ok::<(u32, int), PersistErrorView>((count(e.keys.len()), i + 13)),
        keys_at(b, i + 13, e.keys.len(), w) == Ok::<(Seq<KeyView>, int), PersistErrorView>(
            (e.keys, i + rest_bytes(e).len()),
        ),
{
    let p3 = flag(e.requires_preauth);
    let p4 = be64(e.max_life);
    let p5 = be32(count(e.keys.len()));
    let p6 = keys_bytes(e.keys);
    lemma_stands_split(b, i, p3 + p4 + p5, p6);
    lemma_stands_split(b, i, p3 + p4, p5);
    lemma_stands_split(b, i, p3, p4);
    assert(be64(e.max_life).len() == 8);
    assert(b.subrange(i, i + 1)[0] == b[i]);
    lemma_long_read(b, i + 1, e.max_life);
    lemma_word_read(b, i + 9, count(e.keys.len()));
    lemma_keys_read(b, i + 13, e.keys, w);
}

/// What an entry starts with is read where it stands.
proof fn lemma_front_read(b: Seq<u8>, i: int, e: PlainView, w: Refusals)
    requires
        stands(b, i, front_bytes(e)),
        writable_entry(e, w.shapes@),
    ensures
        front_at(b, i, w) == Ok::<
            (Seq<char>, i32, Seq<u8>, bool, u64, Seq<KeyView>, int),
            PersistErrorView,
        >(
            (
                e.name.joined(),
                e.name.name_type,
                e.salt,
                e.requires_preauth,
                e.max_life,
                e.keys,
                i + front_bytes(e).len(),
            ),
        ),
{
    let i1 = i + name_bytes(e).len();
    let i2 = i1 + 4;
    let i3 = i2 + string_bytes(e.salt).len();
    assert(stands(b, i, name_bytes(e) + be32(unsigned(e.name.name_type)) + string_bytes(e.salt))
        && stands(b, i3, rest_bytes(e)) && front_bytes(e).len() == i3 - i + rest_bytes(e).len())
        by {
        lemma_front_halves(b, i, e);
    }
    lemma_front_name(b, i, e);
    lemma_front_rest(b, i3, e, w);
    assert(signed(unsigned(e.name.name_type)) == e.name.name_type);
}

/// An entry that stands somewhere is read there.
proof fn lemma_entry_read(b: Seq<u8>, i: int, e: PlainView, w: Refusals)
    requires
        stands(b, i, entry_bytes(e)),
        writable_entry(e, w.shapes@),
    ensures
        entry_at(b, i, false, true, w) == Ok::<(PlainView, int), PersistErrorView>(
            (e, i + entry_bytes(e).len()),
        ),
{
    reveal(entry_at);
    let f = front_bytes(e);
    let l = flag(e.locked);
    lemma_stands_split(b, i, f, l + be32(e.pw_expire));
    lemma_stands_split(b, i + f.len(), l, be32(e.pw_expire));
    lemma_front_read(b, i, e, w);
    let j = i + f.len();
    assert(b.subrange(j, j + 1)[0] == b[j]);
    lemma_word_read(b, j + 1, e.pw_expire);
    law_split_of_join(e.name.components, '/');
}

/// Entries that stand somewhere are read there.
proof fn lemma_entries_read(b: Seq<u8>, i: int, v: Seq<PlainView>, w: Refusals)
    requires
        stands(b, i, entries_bytes(v)),
        forall|k: int| 0 <= k < v.len() ==> writable_entry(#[trigger] v[k], w.shapes@),
    ensures
        entries_at(b, i, v.len(), false, true, w) == Ok::<
            (Seq<PlainView>, int),
            PersistErrorView,
        >((v, i + entries_bytes(v).len())),
    decreases v.len(),
{
    if v.len() == 0 {
        assert(v =~= Seq::<PlainView>::empty());
    } else {
        let front = v.drop_last();
        lemma_stands_split(b, i, entries_bytes(front), entry_bytes(v.last()));
        assert forall|k: int| 0 <= k < front.len() implies writable_entry(
            #[trigger] front[k],
            w.shapes@,
        ) by {
            assert(front[k] == v[k]);
        }
        lemma_entries_read(b, i, front, w);
        assert(writable_entry(v[v.len() - 1], w.shapes@));
        lemma_entry_read(b, i + entries_bytes(front).len(), v.last(), w);
        assert(front.push(v.last()) =~= v);
    }
}

/// Relative identifiers that stand somewhere are read there.
proof fn lemma_rids_read(b: Seq<u8>, i: int, v: Seq<(Seq<char>, u32)>)
    requires
        stands(b, i, rids_bytes(v)),
        forall|k: int| 0 <= k < v.len() ==> encode_utf8((#[trigger] v[k]).0).len() <= u32::MAX,
    ensures
        rids_at(b, i, v.len()) == Ok::<(Seq<(Seq<char>, u32)>, int), PersistErrorView>(
            (v, i + rids_bytes(v).len()),
        ),
    decreases v.len(),
{
    if v.len() == 0 {
        assert(v =~= Seq::<(Seq<char>, u32)>::empty());
    } else {
        let front = v.drop_last();
        let last = v.last();
        let s = string_bytes(encode_utf8(last.0));
        lemma_stands_split(b, i, rids_bytes(front), s + be32(last.1));
        let j = i + rids_bytes(front).len();
        lemma_stands_split(b, j, s, be32(last.1));
        assert forall|k: int| 0 <= k < front.len() implies encode_utf8((#[trigger] front[k]).0).len()
            <= u32::MAX by {
            assert(front[k] == v[k]);
        }
        lemma_rids_read(b, i, front);
        assert(encode_utf8(v[v.len() - 1].0).len() <= u32::MAX);
        lemma_text_read(b, j, last.0);
        lemma_word_read(b, j + s.len(), last.1);
        assert(front.push(last) =~= v);
    }
}

/// Identifiers that can be written and read.
pub open spec fn writable_trailer(t: TrailerView) -> bool {
    &&& encode_utf8(t.sddl).len() <= u32::MAX
    &&& t.rids.len() <= u32::MAX
    &&& forall|k: int|
        0 <= k < t.rids.len() ==> encode_utf8((#[trigger] t.rids[k]).0).len() <= u32::MAX
}

/// The identifiers that stand somewhere are read there.
proof fn lemma_trailer_read(b: Seq<u8>, i: int, t: TrailerView)
    requires
        stands(b, i, trailer_bytes(t)),
        writable_trailer(t),
    ensures
        trailer_at(b, i, true) == Ok::<TrailerView, PersistErrorView>(t),
{
    reveal(trailer_at);
    let s = string_bytes(encode_utf8(t.sddl));
    let n = be32(t.next_rid);
    let c = be32(count(t.rids.len()));
    lemma_stands_split(b, i, s + n + c, rids_bytes(t.rids));
    lemma_stands_split(b, i, s + n, c);
    lemma_stands_split(b, i, s, n);
    let j = i + s.len();
    lemma_text_read(b, i, t.sddl);
    lemma_word_read(b, j, t.next_rid);
    lemma_word_read(b, j + 4, count(t.rids.len()));
    lemma_rids_read(b, j + 8, t.rids);
}

/// Where the parts of a list stand.
proof fn lemma_list_stands(realm: Seq<char>, entries: Seq<PlainView>, t: TrailerView)
    ensures
        ({
            let b = plain_bytes(realm, entries, t);
            let s = string_bytes(encode_utf8(realm));
            let e = entries_bytes(entries);
            let k = s.len() + 4 + e.len() as int;
            &&& stands(b, 0, s)
            &&& stands(b, s.len() as int, be32(count(entries.len())))
            &&& stands(b, s.len() + 4 as int, e)
            &&& stands(b, k, seq![0x53u8, 0x49, 0x44, 0x31])
            &&& stands(b, k + 4, trailer_bytes(t))
        }),
{
    let b = plain_bytes(realm, entries, t);
    let s = string_bytes(encode_utf8(realm));
    let c = be32(count(entries.len()));
    let e = entries_bytes(entries);
    let m = seq![0x53u8, 0x49, 0x44, 0x31];
    let x = trailer_bytes(t);
    assert(b.subrange(0, b.len() as int) =~= b);
    lemma_stands_split(b, 0, s + c + e, m + x);
    lemma_stands_split(b, 0, s + c, e);
    lemma_stands_split(b, 0, s, c);
    lemma_stands_split(b, s.len() + 4 + e.len() as int, m, x);
}

/// The mark in front of the identifiers is seen where it stands.
proof fn lemma_trailer_seen(b: Seq<u8>, k: int)
    requires
        stands(b, k, seq![0x53u8, 0x49, 0x44, 0x31]),
    ensures
        has_trailer(b, k),
{
    let q = b.subrange(k, k + 4);
    assert(b[k] == q[0] && b[k + 1] == q[1] && b[k + 2] == q[2] && b[k + 3] == q[3]);
}

/// Reading a list that was written gives the list back.
pub proof fn law_plain_round_trip(
    realm: Seq<char>,
    entries: Seq<PlainView>,
    t: TrailerView,
    w: Refusals,
)
    requires
        encode_utf8(realm).len() <= u32::MAX,
        entries.len() <= u32::MAX,
        forall|k: int| 0 <= k < entries.len() ==> writable_entry(#[trigger] entries[k], w.shapes@),
        writable_trailer(t),
    ensures
        plain_of(plain_bytes(realm, entries, t), false, true, w, true) == Ok::<
            PlainDbView,
            PersistErrorView,
        >((PlainDbView { realm, entries, sids: Some(t) })),
{
    let b = plain_bytes(realm, entries, t);
    let i = string_bytes(encode_utf8(realm)).len() as int;
    let k = i + 4 + entries_bytes(entries).len();
    lemma_list_stands(realm, entries, t);
    lemma_text_read(b, 0, realm);
    lemma_word_read(b, i, count(entries.len()));
    lemma_entries_read(b, i + 4, entries, w);
    lemma_trailer_seen(b, k);
    lemma_trailer_read(b, k + 4, t);
    assert(text_at(b, 0) == Ok::<(Seq<char>, int), PersistErrorView>((realm, i)));
    assert(word_at(b, i) == Ok::<(u32, int), PersistErrorView>((count(entries.len()), i + 4)));
}

/// An entry of the second format ends in an octet string that is passed over,
/// whether it is locked, and when its password expires.
pub proof fn law_second_format_ends(front: Seq<u8>, skipped: Seq<u8>, locked: u8, expire: u32)
    requires
        skipped.len() <= u32::MAX,
    ensures
        ({
            let b = front + (string_bytes(skipped) + (seq![locked] + be32(expire)));
            back_at(b, front.len() as int, true, false) == Ok::<
                (bool, u32, int),
                PersistErrorView,
            >((locked != 0, expire, b.len() as int))
        }),
{
    let tail = seq![locked] + be32(expire);
    let b = front + (string_bytes(skipped) + tail);
    let i = front.len() as int;
    assert(b.subrange(i, i + (string_bytes(skipped) + tail).len()) =~= string_bytes(skipped)
        + tail);
    lemma_stands_split(b, i, string_bytes(skipped), tail);
    lemma_string_read(b, i, skipped);
    let j = i + string_bytes(skipped).len();
    lemma_stands_split(b, j, seq![locked], be32(expire));
    assert(b[j] == b.subrange(j, j + 1)[0]);
    lemma_word_read(b, j + 1, expire);
}

/// An entry of the third format ends in whether it is locked, and when its
/// password expires; one of the first ends in neither, is not locked, and its
/// password does not expire.
pub proof fn law_other_formats_end(front: Seq<u8>, locked: u8, expire: u32)
    ensures
        ({
            let b = front + (seq![locked] + be32(expire));
            &&& back_at(b, front.len() as int, false, true) == Ok::<
                (bool, u32, int),
                PersistErrorView,
            >((locked != 0, expire, b.len() as int))
            &&& back_at(b, front.len() as int, false, false) == Ok::<
                (bool, u32, int),
                PersistErrorView,
            >((false, 0, front.len() as int))
        }),
{
    let tail = seq![locked] + be32(expire);
    let b = front + tail;
    let j = front.len() as int;
    assert(b.subrange(j, j + tail.len()) =~= tail);
    lemma_stands_split(b, j, seq![locked], be32(expire));
    assert(b[j] == b.subrange(j, j + 1)[0]);
    lemma_word_read(b, j + 1, expire);
}

/// Identifiers whose domain identifier cannot be read are refused, and nothing
/// in them matters then.
pub proof fn law_unreadable_domain_is_refused(b: Seq<u8>, i: int)
    ensures
        trailer_at(b, i, false) is Err,
        text_at(b, i) matches Ok((sddl, _)) ==> trailer_at(b, i, false) == Err::<
            TrailerView,
            PersistErrorView,
        >(PersistErrorView::Format("SID1 trailer is not valid SDDL: "@ + sddl)),
{
    reveal(trailer_at);
}

/// A list without `SID1` behind its entries has no identifiers, and one with it
/// has them.
pub proof fn law_identifiers_are_optional(
    b: Seq<u8>,
    v2: bool,
    v3: bool,
    w: Refusals,
    sid_valid: bool,
)
    ensures
        plain_of(b, v2, v3, w, sid_valid) matches Ok(db) ==> body_at(b, v2, v3, w) matches Ok(t)
            && db.realm == t.0 && db.entries == t.1 && (db.sids is Some <==> has_trailer(b, t.2)),
        body_at(b, v2, v3, w) is Err ==> plain_of(b, v2, v3, w, sid_valid) is Err,
        body_at(b, v2, v3, w) matches Ok(t) ==> !has_trailer(b, t.2) ==> plain_of(
            b,
            v2,
            v3,
            w,
            sid_valid,
        ) is Ok,
{
}

/// A key that is read has a type and a length that are known together, and
/// another is refused.
pub proof fn law_unknown_key_is_refused(k: KeyView, w: Refusals)
    requires
        k.key.len() <= u32::MAX,
    ensures
        key_at(key_bytes(k), 0, w) is Ok <==> key_ok(w.shapes@, k.etype, k.key.len()),
        key_at(key_bytes(k), 0, w) is Err ==> key_at(key_bytes(k), 0, w) == Err::<
            (KeyView, int),
            PersistErrorView,
        >(PersistErrorView::Crypto(w.key@)),
{
    let b = key_bytes(k);
    let x = be32(unsigned(k.etype));
    let y = be32(k.kvno);
    let z = string_bytes(k.key);
    assert(b.subrange(0, b.len() as int) =~= x + (y + z));
    lemma_stands_split(b, 0, x, y + z);
    lemma_stands_split(b, 4, y, z);
    lemma_word_read(b, 0, unsigned(k.etype));
    lemma_word_read(b, 4, k.kvno);
    lemma_string_read(b, 8, k.key);
}

/// A word and its signed number are the same up to a carry.
pub proof fn law_sign_is_carried(v: u32)
    ensures
        signed(v) == v || signed(v) + 0x1_0000_0000 == v,
        unsigned(signed(v)) == v,
{
}

} // verus!
