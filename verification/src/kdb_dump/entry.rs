//! Records of a dump as entries of a database, and entries as records.

use crate::bytes::{
    append, copy, from_le16, from_le32, get_le16, get_le32, le16, le32, put_le16, put_le32,
    slice_eq,
};
use crate::kdb_dump::{
    dump_key_views, tl_views, BlobView, DumpError, DumpKeyData, DumpKeySlot, DumpKeyView,
    DumpPrincipal, PrincView,
};
use crate::name::{
    ascii_parts, NameView, PrincipalName, NT_PRINCIPAL, NT_SRV_HST, NT_SRV_INST,
};
use crate::store::{
    key_views, KeyEntry, KeyView, Policy, Principal, TlData, KDB_DISALLOW_ALL_TIX,
    KDB_REQUIRES_PRE_AUTH,
};
use crate::text::{
    chars_of, concat, last_position, last_position_of, lemma_last_position, range_string, split,
    split_chars, str_eq, views,
};
use vstd::prelude::*;
use vstd::slice::slice_subrange;
use vstd::string::*;
use vstd::utf8::encode_utf8;

verus! {

/// Tagged-data type of the last password change.
pub const TL_LAST_PWD_CHANGE: i32 = 1;

/// Tagged-data type of who changed the entry, and when.
pub const TL_MOD_PRINC: i32 = 2;

/// Tagged-data type of the master key version.
pub const TL_MKVNO: i32 = 8;

/// Tagged-data type of the active master key version.
pub const TL_ACTKVNO: i32 = 9;

/// Tagged-data type of the domain identifier and the relative identifier.
pub const TL_KERBER_SID: i32 = 0x4B01;

/// The salt type of the default salt.
pub const SALTTYPE_NORMAL: i32 = 0;

/// The salt type of a salt that is kept.
pub const SALTTYPE_SPECIAL: i32 = 4;

/// Length of the fixed part of an entry.
pub const KDB_V1_BASE_LENGTH: u32 = 38;

/// What is wrong with a dump.
pub enum DumpErrorView {
    /// A line that does not keep to the format.
    Format(Seq<char>),
    /// A key that cannot be read or written.
    Crypto(Seq<char>),
    /// A file that cannot be read or written.
    Io(Seq<char>),
}

impl View for DumpError {
    type V = DumpErrorView;

    open spec fn view(&self) -> DumpErrorView {
        match self {
            DumpError::Format(s) => DumpErrorView::Format(s@),
            DumpError::Crypto(s) => DumpErrorView::Crypto(s@),
            DumpError::Io(s) => DumpErrorView::Io(s@),
        }
    }
}

/// The identifier of a domain.
#[derive(Clone, Debug, PartialEq, Eq)]
pub struct DomainSid {
    /// Revision.
    pub revision: u8,
    /// Authority.
    pub identifier_authority: [u8; 6],
    /// Authorities below it.
    pub sub_authority: Vec<u32>,
}

/// What the identifier of a domain says.
#[verifier::ext_equal]
pub struct SidView {
    /// Revision.
    pub revision: u8,
    /// Authority.
    pub authority: Seq<u8>,
    /// Authorities below it.
    pub subs: Seq<u32>,
}

impl View for DomainSid {
    type V = SidView;

    open spec fn view(&self) -> SidView {
        SidView {
            revision: self.revision,
            authority: self.identifier_authority@,
            subs: self.sub_authority@,
        }
    }
}

/// What an optional identifier says.
pub open spec fn sid_view(s: Option<DomainSid>) -> Option<SidView> {
    match s {
        Some(d) => Some(d@),
        None => None,
    }
}

/// The octets of words, the low octet first.
pub open spec fn words_le(v: Seq<u32>) -> Seq<u8>
    decreases v.len(),
{
    if v.len() == 0 {
        Seq::empty()
    } else {
        words_le(v.drop_last()) + le32(v.last())
    }
}

/// The octets of a domain identifier with a relative identifier.
pub open spec fn sid_bytes(s: SidView, rid: u32) -> Seq<u8> {
    seq![1u8] + le32(rid) + seq![
        s.revision,
        if s.subs.len() <= 255 {
            s.subs.len() as u8
        } else {
            0
        },
    ] + s.authority + words_le(s.subs)
}

/// The words that stand in `b` from `i` on.
pub open spec fn words_at(b: Seq<u8>, i: int, n: nat) -> Seq<u32> {
    Seq::new(n, |k: int| from_le32(b, i + 4 * k))
}

/// The domain identifier and the relative identifier that octets say; none,
/// and zero, where they are malformed.
pub open spec fn sid_of_bytes(b: Seq<u8>) -> (Option<SidView>, u32) {
    if b.len() < 13 || b[0] != 1 || b.len() < 13 + 4 * b[6] {
        (None, 0)
    } else {
        (
            Some(
                SidView {
                    revision: b[5],
                    authority: b.subrange(7, 13),
                    subs: words_at(b, 13, b[6] as nat),
                },
            ),
            from_le32(b, 1),
        )
    }
}

/// The first item of a type.
pub open spec fn first_of_type(tl: Seq<BlobView>, ty: i32) -> Option<Seq<u8>>
    decreases tl.len(),
{
    if tl.len() == 0 {
        None
    } else if tl[0].ty == ty {
        Some(tl[0].contents)
    } else {
        first_of_type(tl.drop_first(), ty)
    }
}

/// The domain identifier and the relative identifier in tagged data.
pub open spec fn sid_of(tl: Seq<BlobView>) -> (Option<SidView>, u32) {
    match first_of_type(tl, TL_KERBER_SID) {
        None => (None, 0),
        Some(b) => sid_of_bytes(b),
    }
}

/// The master key version in tagged data: that of the first item of its type
/// with two octets, or one where there is none.
pub open spec fn mkvno_of(tl: Seq<BlobView>) -> u16
    decreases tl.len(),
{
    if tl.len() == 0 {
        1
    } else if tl[0].ty == TL_MKVNO && tl[0].contents.len() == 2 {
        from_le16(tl[0].contents, 0)
    } else {
        mkvno_of(tl.drop_first())
    }
}

/// Reads the domain identifier out of tagged data.
fn parse_sid_tl(tl: &[TlData]) -> (r: (Option<DomainSid>, u32))
    ensures
        (sid_view(r.0), r.1) == sid_of(tl_views(tl@)),
{
    let ghost all = tl_views(tl@);
    let mut i: usize = 0;
    proof {
        assert(all.skip(0) =~= all);
    }
    while i < tl.len()
        invariant
            i <= tl@.len(),
            all == tl_views(tl@),
            first_of_type(all, TL_KERBER_SID) == first_of_type(all.skip(i as int), TL_KERBER_SID),
        decreases tl@.len() - i,
    {
        proof {
            assert(all.skip(i as int)[0] == all[i as int]);
            assert(all.skip(i as int).drop_first() =~= all.skip(i + 1));
        }
        if tl[i].ty == TL_KERBER_SID {
            return parse_sid(tl[i].contents.as_slice());
        }
        i = i + 1;
    }
    (None, 0)
}

/// Reads a domain identifier.
fn parse_sid(b: &[u8]) -> (r: (Option<DomainSid>, u32))
    ensures
        (sid_view(r.0), r.1) == sid_of_bytes(b@),
{
    if b.len() < 13 || b[0] != 1 {
        return (None, 0);
    }
    let rid: u32 = get_le32(b, 1);
    let revision: u8 = b[5];
    let n: usize = b[6] as usize;
    if b.len() < 13 + n * 4 {
        return (None, 0);
    }
    let identifier_authority: [u8; 6] = [b[7], b[8], b[9], b[10], b[11], b[12]];
    let mut sub_authority: Vec<u32> = Vec::new();
    let mut k: usize = 0;
    while k < n
        invariant
            k <= n,
            n <= 255,
            13 + n * 4 <= b@.len(),
            sub_authority@ == words_at(b@, 13, k as nat),
        decreases n - k,
    {
        sub_authority.push(get_le32(b, 13 + 4 * k));
        k = k + 1;
        proof {
            assert(sub_authority@ =~= words_at(b@, 13, k as nat));
        }
    }
    let sid = DomainSid { revision, identifier_authority, sub_authority };
    proof {
        assert(sid@.authority =~= b@.subrange(7, 13));
    }
    (Some(sid), rid)
}

/// Reads the master key version out of tagged data.
fn mkvno_from_tl(tl: &[TlData]) -> (r: u16)
    ensures
        r == mkvno_of(tl_views(tl@)),
{
    let ghost all = tl_views(tl@);
    let mut i: usize = 0;
    proof {
        assert(all.skip(0) =~= all);
    }
    while i < tl.len()
        invariant
            i <= tl@.len(),
            all == tl_views(tl@),
            mkvno_of(all) == mkvno_of(all.skip(i as int)),
        decreases tl@.len() - i,
    {
        proof {
            assert(all.skip(i as int)[0] == all[i as int]);
            assert(all.skip(i as int).drop_first() =~= all.skip(i + 1));
        }
        if tl[i].ty == TL_MKVNO && tl[i].contents.len() == 2 {
            return get_le16(tl[i].contents.as_slice(), 0);
        }
        i = i + 1;
    }
    1
}

/// The type of a name with these components.
pub open spec fn name_type_of(parts: Seq<Seq<char>>) -> i32 {
    if parts.len() == 2 && parts[0] == "host"@ {
        NT_SRV_HST
    } else if parts.len() == 1 || (parts.len() == 2 && parts[0] == "K"@ && parts[1] == "M"@) {
        NT_PRINCIPAL
    } else {
        NT_SRV_INST
    }
}

/// The name and the realm of `name@REALM`; `refusal` is what is said of a
/// name that is not ASCII.
pub open spec fn unparsed(s: Seq<char>, refusal: Seq<char>) -> Result<
    (NameView, Seq<char>),
    Seq<char>,
> {
    let at = last_position(s, '@');
    if at < 0 {
        Err("missing realm in "@ + s)
    } else if at == 0 || at == s.len() - 1 {
        Err("empty principal "@ + s)
    } else {
        let parts = split(s.take(at), '/');
        if ascii_parts(parts) {
            Ok((NameView { name_type: name_type_of(parts), components: parts }, s.skip(at + 1)))
        } else {
            Err(refusal)
        }
    }
}

/// Reads `name@REALM`.
pub fn parse_unparsed(s: &str, refusal: &str) -> (r: Result<(PrincipalName, String), DumpError>)
    ensures
        match r {
            Ok((n, realm)) => unparsed(s@, refusal@) == Ok::<(NameView, Seq<char>), Seq<char>>(
                (n@, realm@),
            ),
            Err(e) => e matches DumpError::Format(m) && unparsed(s@, refusal@) == Err::<
                (NameView, Seq<char>),
                Seq<char>,
            >(m@),
        },
{
    let cs = chars_of(s);
    proof {
        lemma_last_position(cs@, '@');
    }
    let at: usize = match last_position_of(cs.as_slice(), '@') {
        Some(i) => i,
        None => {
            return Err(DumpError::Format(concat("missing realm in ", s)));
        },
    };
    if at == 0 || at + 1 == cs.len() {
        return Err(DumpError::Format(concat("empty principal ", s)));
    }
    let realm = range_string(cs.as_slice(), at + 1, cs.len());
    let parts: Vec<String> = split_chars(slice_subrange(cs.as_slice(), 0, at), '/');
    proof {
        assert(cs@.subrange(0, at as int) =~= cs@.take(at as int));
        assert(realm@ =~= cs@.skip(at + 1));
        assert(forall|k: int| 0 <= k < parts@.len() ==> views(parts@)[k] == parts@[k]@);
    }
    let name_type: i32 = if parts.len() == 2 && str_eq(parts[0].as_str(), "host") {
        NT_SRV_HST
    } else if parts.len() == 1 || (parts.len() == 2 && str_eq(parts[0].as_str(), "K") && str_eq(
        parts[1].as_str(),
        "M",
    )) {
        NT_PRINCIPAL
    } else {
        NT_SRV_INST
    };
    match PrincipalName::try_new(name_type, parts) {
        Some(n) => Ok((n, realm)),
        None => Err(DumpError::Format(refusal.to_owned())),
    }
}

/// What opening keys gave: the octets of each, or why it could not be opened.
pub open spec fn opened_views(v: Seq<Result<Vec<u8>, String>>) -> Seq<Result<Seq<u8>, Seq<char>>> {
    v.map_values(|x: Result<Vec<u8>, String>| opened_view(x))
}

/// What opening a key gave.
pub open spec fn opened_view(x: Result<Vec<u8>, String>) -> Result<Seq<u8>, Seq<char>> {
    match x {
        Ok(b) => Ok(b@),
        Err(e) => Err(e@),
    }
}

/// The salt slot of a key that has one.
pub open spec fn has_salt(k: DumpKeyView) -> bool {
    k.ver >= 2 && k.slots.len() >= 2
}

/// The key that a key of a dump stands for, its octets being `raw`.
pub open spec fn key_of(k: DumpKeyView, raw: Seq<u8>) -> KeyView {
    KeyView {
        etype: k.slots[0].ty,
        kvno: k.kvno,
        key: raw,
        salt_type: if has_salt(k) {
            Some(k.slots[1].ty)
        } else {
            None
        },
        kdb_salt: if has_salt(k) {
            Some(k.slots[1].contents)
        } else {
            None
        },
    }
}

/// The keys of a record, given what opening each gave; the first that is
/// wrong decides.
pub open spec fn opened_keys(
    ks: Seq<DumpKeyView>,
    opened: Seq<Result<Seq<u8>, Seq<char>>>,
    name: Seq<char>,
) -> Result<Seq<KeyView>, DumpErrorView>
    decreases ks.len(),
{
    if ks.len() == 0 {
        Ok(Seq::empty())
    } else {
        match opened_keys(ks.drop_last(), opened, name) {
            Err(e) => Err(e),
            Ok(v) => if ks.last().slots.len() == 0 {
                Err(DumpErrorView::Format(name + ": key_data with no slots"@))
            } else {
                match opened[ks.len() - 1] {
                    Err(e) => Err(DumpErrorView::Crypto(e)),
                    Ok(raw) => Ok(v.push(key_of(ks.last(), raw))),
                }
            },
        }
    }
}

/// A salt that is kept for the entry.
pub open spec fn keeps_salt(k: DumpKeyView) -> bool {
    has_salt(k) && (k.slots[1].ty == SALTTYPE_NORMAL || k.slots[1].ty == SALTTYPE_SPECIAL)
        && k.slots[1].contents.len() > 0
}

/// The first salt that is kept for the entry.
pub open spec fn first_salt(ks: Seq<DumpKeyView>) -> Option<Seq<u8>>
    decreases ks.len(),
{
    if ks.len() == 0 {
        None
    } else {
        match first_salt(ks.drop_last()) {
            Some(s) => Some(s),
            None => if keeps_salt(ks.last()) {
                Some(ks.last().slots[1].contents)
            } else {
                None
            },
        }
    }
}

/// Keys of which one is wrong are wrong with more behind them too.
proof fn lemma_opened_fail(
    ks: Seq<DumpKeyView>,
    k: int,
    opened: Seq<Result<Seq<u8>, Seq<char>>>,
    name: Seq<char>,
)
    requires
        0 <= k <= ks.len(),
        opened_keys(ks.take(k), opened, name) is Err,
    ensures
        opened_keys(ks, opened, name) == opened_keys(ks.take(k), opened, name),
    decreases ks.len(),
{
    if k == ks.len() {
        assert(ks.take(k) =~= ks);
    } else {
        assert(ks.drop_last().take(k) =~= ks.take(k));
        lemma_opened_fail(ks.drop_last(), k, opened, name);
    }
}

/// Reads the keys of a record.
fn open_keys(ks: &[DumpKeyData], opened: &[Result<Vec<u8>, String>], name: &str) -> (r: Result<
    (Vec<KeyEntry>, Option<Vec<u8>>),
    DumpError,
>)
    requires
        opened@.len() == ks@.len(),
    ensures
        match r {
            Ok((v, salt)) => {
                &&& opened_keys(dump_key_views(ks@), opened_views(opened@), name@) == Ok::<
                    Seq<KeyView>,
                    DumpErrorView,
                >(key_views(v@))
                &&& first_salt(dump_key_views(ks@)) == (match salt {
                    Some(s) => Some(s@),
                    None => None,
                })
            },
            Err(e) => opened_keys(dump_key_views(ks@), opened_views(opened@), name@) == Err::<
                Seq<KeyView>,
                DumpErrorView,
            >(e@),
        },
{
    let ghost all = dump_key_views(ks@);
    let ghost ov = opened_views(opened@);
    let mut out: Vec<KeyEntry> = Vec::new();
    let mut salt: Option<Vec<u8>> = None;
    let mut i: usize = 0;
    proof {
        assert(all.take(0) =~= Seq::<DumpKeyView>::empty());
        assert(key_views(out@) =~= Seq::<KeyView>::empty());
    }
    while i < ks.len()
        invariant
            i <= ks@.len(),
            opened@.len() == ks@.len(),
            all == dump_key_views(ks@),
            ov == opened_views(opened@),
            opened_keys(all.take(i as int), ov, name@) == Ok::<Seq<KeyView>, DumpErrorView>(
                key_views(out@),
            ),
            first_salt(all.take(i as int)) == (match salt {
                Some(s) => Some(s@),
                None => None,
            }),
        decreases ks@.len() - i,
    {
        let ghost before = out@;
        let ghost here = all[i as int];
        let k: &DumpKeyData = &ks[i];
        proof {
            assert(all.take(i + 1).drop_last() =~= all.take(i as int));
            assert(all.take(i + 1).last() == here);
            assert(here == k@);
            assert(here.slots.len() == k.slots@.len());
            assert(forall|j: int|
                0 <= j < k.slots@.len() ==> here.slots[j] == (#[trigger] k.slots@[j])@);
            assert(ov[i as int] == opened_view(opened@[i as int]));
        }
        if k.slots.len() == 0 {
            proof {
                lemma_opened_fail(all, i + 1, ov, name@);
            }
            return Err(DumpError::Format(concat(name, ": key_data with no slots")));
        }
        let raw: Vec<u8> = match &opened[i] {
            Ok(b) => copy(b.as_slice()),
            Err(e) => {
                proof {
                    lemma_opened_fail(all, i + 1, ov, name@);
                }
                return Err(DumpError::Crypto(e.clone()));
            },
        };
        let salted: bool = k.ver >= 2 && k.slots.len() >= 2;
        let mut salt_type: Option<i32> = None;
        let mut kdb_salt: Option<Vec<u8>> = None;
        if salted {
            let s: &DumpKeySlot = &k.slots[1];
            if salt.is_none() && (s.ty == SALTTYPE_NORMAL || s.ty == SALTTYPE_SPECIAL)
                && s.contents.len() > 0 {
                salt = Some(copy(s.contents.as_slice()));
            }
            salt_type = Some(s.ty);
            kdb_salt = Some(copy(s.contents.as_slice()));
        }
        let one = KeyEntry { etype: k.slots[0].ty, kvno: k.kvno, key: raw, salt_type, kdb_salt };
        proof {
            assert(one@ =~= key_of(here, raw@));
        }
        out.push(one);
        proof {
            assert(key_views(out@) =~= key_views(before).push(one@));
        }
        i = i + 1;
    }
    proof {
        assert(all.take(all.len() as int) =~= all);
    }
    Ok((out, salt))
}

/// The name, the realm and the keys of a record, given what opening its keys
/// gave; the key of `K/M` must be the master key itself.
pub open spec fn spec_entry(
    d: PrincView,
    opened: Seq<Result<Seq<u8>, Seq<char>>>,
    mkey: Seq<u8>,
    refusal: Seq<char>,
) -> Result<(NameView, Seq<char>, Seq<KeyView>), DumpErrorView> {
    match unparsed(d.name, refusal) {
        Err(e) => Err(DumpErrorView::Format(e)),
        Ok((name, realm)) => match opened_keys(d.keys, opened, d.name) {
            Err(e) => Err(e),
            Ok(ks) => if name.joined() == "K/M"@ && ks.len() > 0 && ks[0].key != mkey {
                Err(DumpErrorView::Crypto("K/M key_data does not match derived master key"@))
            } else {
                Ok((name, realm, ks))
            },
        },
    }
}

/// `p` is the entry of a record with this name, realm and keys.
pub open spec fn is_entry_of(
    p: Principal,
    d: PrincView,
    name: NameView,
    realm: Seq<char>,
    ks: Seq<KeyView>,
) -> bool {
    &&& p.name@ == name
    &&& p.realm@ == realm
    &&& key_views(p.keys@) == ks
    &&& p.key_history@.len() == 0
    &&& p.salt@ == (match first_salt(d.keys) {
        Some(s) => s,
        None => name.salt(realm),
    })
    &&& p.requires_preauth == (d.attributes & KDB_REQUIRES_PRE_AUTH != 0)
    &&& p.locked == (d.attributes & KDB_DISALLOW_ALL_TIX != 0)
    &&& p.max_life == d.max_life
    &&& p.pw_expire == d.pw_expiration
    &&& p.attributes == d.attributes
    &&& p.max_renewable_life == d.max_renewable_life
    &&& p.expiration == d.expiration
    &&& p.last_success == d.last_success
    &&& p.last_failed == d.last_failed
    &&& p.fail_auth_count == d.fail_auth_count
    &&& p.mkvno == mkvno_of(d.tl_data)
    &&& p.db_entry_len == d.db_len
    &&& tl_views(p.tl_data@) == d.tl_data
    &&& p.e_data@ == d.e_data
    &&& p.rid == sid_of(d.tl_data).1
    &&& p.pw_policy is None
    &&& p.string_attrs@.len() == 0
    &&& p.s4u_allowed_to@.len() == 0
    &&& p.s4u_allowed_from@.len() == 0
}

impl DumpPrincipal {
    /// The entry of the record, and the domain identifier in it. `opened`
    /// holds what decrypting each key in the master key `mkey` gave.
    pub fn into_principal(
        self,
        mkey: &[u8],
        opened: &[Result<Vec<u8>, String>],
        refusal: &str,
    ) -> (r: Result<(Principal, Option<DomainSid>), DumpError>)
        requires
            opened@.len() == self.keys@.len(),
        ensures
            match r {
                Ok((p, sid)) => spec_entry(
                    self@,
                    opened_views(opened@),
                    mkey@,
                    refusal@,
                ) matches Ok(t) && is_entry_of(p, self@, t.0, t.1, t.2) && sid_view(sid) == sid_of(
                    self@.tl_data,
                ).0,
                Err(e) => spec_entry(self@, opened_views(opened@), mkey@, refusal@) == Err::<
                    (NameView, Seq<char>, Seq<KeyView>),
                    DumpErrorView,
                >(e@),
            },
    {
        let (name, realm): (PrincipalName, String) = match parse_unparsed(
            self.name.as_str(),
            refusal,
        ) {
            Ok(t) => t,
            Err(e) => {
                return Err(e);
            },
        };
        let (keys, kept): (Vec<KeyEntry>, Option<Vec<u8>>) = match open_keys(
            self.keys.as_slice(),
            opened,
            self.name.as_str(),
        ) {
            Ok(t) => t,
            Err(e) => {
                return Err(e);
            },
        };
        let joined = name.components_joined();
        if str_eq(joined.as_str(), "K/M") && keys.len() > 0 {
            proof {
                assert(key_views(keys@)[0] == keys@[0]@);
            }
            if !slice_eq(keys[0].key.as_slice(), mkey) {
                return Err(
                    DumpError::Crypto(
                        "K/M key_data does not match derived master key".to_owned(),
                    ),
                );
            }
        }
        let salt: Vec<u8> = match kept {
            Some(s) => s,
            None => name.default_salt(realm.as_str()),
        };
        let mkvno: u16 = mkvno_from_tl(self.tl_data.as_slice());
        let (sid, rid): (Option<DomainSid>, u32) = parse_sid_tl(self.tl_data.as_slice());
        let p = Principal {
            name,
            realm,
            keys,
            key_history: Vec::new(),
            salt,
            requires_preauth: self.attributes & KDB_REQUIRES_PRE_AUTH != 0,
            max_life: self.max_life as u64,
            locked: self.attributes & KDB_DISALLOW_ALL_TIX != 0,
            pw_expire: self.pw_expiration,
            attributes: self.attributes,
            max_renewable_life: self.max_renewable_life as u64,
            expiration: self.expiration,
            last_success: self.last_success,
            last_failed: self.last_failed,
            fail_auth_count: self.fail_auth_count,
            mkvno,
            db_entry_len: self.db_len,
            tl_data: self.tl_data,
            e_data: self.e_data,
            rid,
            pw_policy: None,
            string_attrs: Vec::new(),
            s4u_allowed_to: Vec::new(),
            s4u_allowed_from: Vec::new(),
        };
        Ok((p, sid))
    }
}

/// The attribute bits of an entry, as a dump has them.
pub open spec fn attributes_of(attributes: u32, requires_preauth: bool, locked: bool) -> u32 {
    let a = if requires_preauth {
        attributes | KDB_REQUIRES_PRE_AUTH
    } else {
        attributes & !KDB_REQUIRES_PRE_AUTH
    };
    if locked {
        a | KDB_DISALLOW_ALL_TIX
    } else {
        a & !KDB_DISALLOW_ALL_TIX
    }
}

/// The attribute bits of an entry.
fn dump_attributes(p: &Principal) -> (r: u32)
    ensures
        r == attributes_of(p.attributes, p.requires_preauth, p.locked),
{
    let a: u32 = if p.requires_preauth {
        p.attributes | KDB_REQUIRES_PRE_AUTH
    } else {
        p.attributes & !KDB_REQUIRES_PRE_AUTH
    };
    if p.locked {
        a | KDB_DISALLOW_ALL_TIX
    } else {
        a & !KDB_DISALLOW_ALL_TIX
    }
}

/// A life as a dump has it: the realm's where the entry has none, and the
/// longest that fits where it is longer.
pub open spec fn life_of(own: u64, realm: u64) -> u32 {
    let n = if own == 0 {
        realm
    } else {
        own
    };
    if n <= u32::MAX {
        n as u32
    } else {
        u32::MAX
    }
}

/// A life as a dump has it.
fn dump_life(own: u64, realm: u64) -> (r: u32)
    ensures
        r == life_of(own, realm),
{
    let n: u64 = if own == 0 {
        realm
    } else {
        own
    };
    if n <= 0xffff_ffff {
        n as u32
    } else {
        u32::MAX
    }
}

/// The tagged data of an entry that has none.
pub open spec fn made_tl(realm: Seq<char>, now: u32, mkvno: u16, is_km: bool) -> Seq<BlobView> {
    (if is_km {
        seq![BlobView { ty: TL_ACTKVNO, contents: le16(1) + le16(1) + le32(0) }]
    } else {
        Seq::empty()
    }) + seq![
        BlobView {
            ty: TL_MOD_PRINC,
            contents: (le32(now) + encode_utf8("db_creation@"@ + realm)).push(0),
        },
        BlobView { ty: TL_MKVNO, contents: le16(mkvno) },
        BlobView { ty: TL_LAST_PWD_CHANGE, contents: le32(now) },
    ]
}

/// Adds an item.
fn put_tl(out: &mut Vec<TlData>, ty: i32, contents: Vec<u8>)
    ensures
        tl_views(final(out)@) == tl_views(old(out)@).push(BlobView { ty, contents: contents@ }),
{
    out.push(TlData { ty, contents });
    proof {
        assert(tl_views(out@) =~= tl_views(old(out)@).push(BlobView { ty, contents: contents@ }));
    }
}

/// The tagged data of an entry that has none.
fn synthesize_tl(realm: &str, now: u32, mkvno: u16, is_km: bool) -> (r: Vec<TlData>)
    ensures
        tl_views(r@) == made_tl(realm@, now, mkvno, is_km),
{
    let mut tl: Vec<TlData> = Vec::new();
    if is_km {
        let mut act: Vec<u8> = Vec::new();
        put_le16(&mut act, 1);
        put_le16(&mut act, 1);
        put_le32(&mut act, 0);
        proof {
            assert(act@ =~= le16(1) + le16(1) + le32(0));
        }
        put_tl(&mut tl, TL_ACTKVNO, act);
    }
    let mut modp: Vec<u8> = Vec::new();
    put_le32(&mut modp, now);
    let who = concat("db_creation@", realm);
    append(&mut modp, who.as_str().as_bytes());
    modp.push(0);
    proof {
        assert(modp@ =~= (le32(now) + encode_utf8("db_creation@"@ + realm@)).push(0));
    }
    put_tl(&mut tl, TL_MOD_PRINC, modp);
    let mut version: Vec<u8> = Vec::new();
    put_le16(&mut version, mkvno);
    proof {
        assert(version@ =~= le16(mkvno));
    }
    put_tl(&mut tl, TL_MKVNO, version);
    let mut changed: Vec<u8> = Vec::new();
    put_le32(&mut changed, now);
    proof {
        assert(changed@ =~= le32(now));
    }
    put_tl(&mut tl, TL_LAST_PWD_CHANGE, changed);
    proof {
        assert(tl_views(tl@) =~= made_tl(realm@, now, mkvno, is_km));
    }
    tl
}

/// Items but those of a type.
pub open spec fn others(tl: Seq<BlobView>, ty: i32) -> Seq<BlobView>
    decreases tl.len(),
{
    if tl.len() == 0 {
        Seq::empty()
    } else if tl.last().ty == ty {
        others(tl.drop_last(), ty)
    } else {
        others(tl.drop_last(), ty).push(tl.last())
    }
}

/// Tagged data with a domain identifier in it.
pub open spec fn with_sid(tl: Seq<BlobView>, domain: SidView, rid: u32) -> Seq<BlobView> {
    others(tl, TL_KERBER_SID).push(
        BlobView { ty: TL_KERBER_SID, contents: sid_bytes(domain, rid) },
    )
}

/// The octets of a domain identifier with a relative identifier.
fn encode_sid(domain: &DomainSid, rid: u32) -> (r: Vec<u8>)
    ensures
        r@ == sid_bytes(domain@, rid),
{
    let mut out: Vec<u8> = Vec::new();
    out.push(1);
    put_le32(&mut out, rid);
    out.push(domain.revision);
    let n: usize = domain.sub_authority.len();
    out.push(
        if n <= 255 {
            n as u8
        } else {
            0
        },
    );
    append(&mut out, domain.identifier_authority.as_slice());
    let ghost front = out@;
    let ghost subs = domain.sub_authority@;
    let mut i: usize = 0;
    proof {
        assert(subs.take(0) =~= Seq::<u32>::empty());
        assert(out@ =~= front + words_le(subs.take(0)));
    }
    while i < domain.sub_authority.len()
        invariant
            i <= domain.sub_authority@.len(),
            subs == domain.sub_authority@,
            out@ == front + words_le(subs.take(i as int)),
        decreases domain.sub_authority@.len() - i,
    {
        put_le32(&mut out, domain.sub_authority[i]);
        proof {
            assert(subs.take(i + 1).drop_last() =~= subs.take(i as int));
            assert(out@ =~= front + words_le(subs.take(i + 1)));
        }
        i = i + 1;
    }
    proof {
        assert(subs.take(subs.len() as int) =~= subs);
        assert(out@ =~= sid_bytes(domain@, rid));
    }
    out
}

/// Tagged data with a domain identifier in it.
fn merge_sid_tl(tl: &[TlData], domain: &DomainSid, rid: u32) -> (r: Vec<TlData>)
    ensures
        tl_views(r@) == with_sid(tl_views(tl@), domain@, rid),
{
    let ghost all = tl_views(tl@);
    let mut out: Vec<TlData> = Vec::new();
    let mut i: usize = 0;
    proof {
        assert(tl_views(out@) =~= others(all.take(0), TL_KERBER_SID));
    }
    while i < tl.len()
        invariant
            i <= tl@.len(),
            all == tl_views(tl@),
            tl_views(out@) == others(all.take(i as int), TL_KERBER_SID),
        decreases tl@.len() - i,
    {
        proof {
            assert(all.take(i + 1).drop_last() =~= all.take(i as int));
            assert(all.take(i + 1).last() == all[i as int]);
        }
        if tl[i].ty != TL_KERBER_SID {
            put_tl(&mut out, tl[i].ty, copy(tl[i].contents.as_slice()));
        }
        i = i + 1;
    }
    proof {
        assert(all.take(all.len() as int) =~= all);
    }
    put_tl(&mut out, TL_KERBER_SID, encode_sid(domain, rid));
    out
}

/// A key as a dump has it, `enc` being the key in the master key.
pub open spec fn sealed_key(k: KeyView, enc: Seq<u8>) -> DumpKeyView {
    let slot = BlobView { ty: k.etype, contents: enc };
    match (k.salt_type, k.kdb_salt) {
        (Some(t), Some(s)) => DumpKeyView {
            ver: 2,
            kvno: k.kvno,
            slots: seq![slot, BlobView { ty: t, contents: s }],
        },
        _ => DumpKeyView { ver: 1, kvno: k.kvno, slots: seq![slot] },
    }
}

/// The keys of an entry as a dump has them, given what encrypting each gave;
/// the first that failed decides.
pub open spec fn sealed_keys(
    ks: Seq<KeyView>,
    sealed: Seq<Result<Seq<u8>, Seq<char>>>,
) -> Result<Seq<DumpKeyView>, Seq<char>>
    decreases ks.len(),
{
    if ks.len() == 0 {
        Ok(Seq::empty())
    } else {
        match sealed_keys(ks.drop_last(), sealed) {
            Err(e) => Err(e),
            Ok(v) => match sealed[ks.len() - 1] {
                Err(e) => Err(e),
                Ok(enc) => Ok(v.push(sealed_key(ks.last(), enc))),
            },
        }
    }
}

/// Keys of which one failed fail with more behind them too.
proof fn lemma_sealed_fail(ks: Seq<KeyView>, k: int, sealed: Seq<Result<Seq<u8>, Seq<char>>>)
    requires
        0 <= k <= ks.len(),
        sealed_keys(ks.take(k), sealed) is Err,
    ensures
        sealed_keys(ks, sealed) == sealed_keys(ks.take(k), sealed),
    decreases ks.len(),
{
    if k == ks.len() {
        assert(ks.take(k) =~= ks);
    } else {
        assert(ks.drop_last().take(k) =~= ks.take(k));
        lemma_sealed_fail(ks.drop_last(), k, sealed);
    }
}

/// The keys of an entry as a dump has them.
fn seal_keys(ks: &[KeyEntry], sealed: &[Result<Vec<u8>, String>]) -> (r: Result<
    Vec<DumpKeyData>,
    DumpError,
>)
    requires
        sealed@.len() == ks@.len(),
    ensures
        match r {
            Ok(v) => sealed_keys(key_views(ks@), opened_views(sealed@)) == Ok::<
                Seq<DumpKeyView>,
                Seq<char>,
            >(dump_key_views(v@)),
            Err(e) => e matches DumpError::Crypto(m) && sealed_keys(
                key_views(ks@),
                opened_views(sealed@),
            ) == Err::<Seq<DumpKeyView>, Seq<char>>(m@),
        },
{
    let ghost all = key_views(ks@);
    let ghost sv = opened_views(sealed@);
    let mut out: Vec<DumpKeyData> = Vec::new();
    let mut i: usize = 0;
    proof {
        assert(all.take(0) =~= Seq::<KeyView>::empty());
        assert(dump_key_views(out@) =~= Seq::<DumpKeyView>::empty());
    }
    while i < ks.len()
        invariant
            i <= ks@.len(),
            sealed@.len() == ks@.len(),
            all == key_views(ks@),
            sv == opened_views(sealed@),
            sealed_keys(all.take(i as int), sv) == Ok::<Seq<DumpKeyView>, Seq<char>>(
                dump_key_views(out@),
            ),
        decreases ks@.len() - i,
    {
        let ghost before = out@;
        let ghost here = all[i as int];
        proof {
            assert(all.take(i + 1).drop_last() =~= all.take(i as int));
            assert(all.take(i + 1).last() == here);
            assert(here == ks@[i as int]@);
            assert(sv[i as int] == opened_view(sealed@[i as int]));
        }
        let k: &KeyEntry = &ks[i];
        let enc: Vec<u8> = match &sealed[i] {
            Ok(b) => copy(b.as_slice()),
            Err(e) => {
                proof {
                    lemma_sealed_fail(all, i + 1, sv);
                }
                return Err(DumpError::Crypto(e.clone()));
            },
        };
        let mut slots: Vec<DumpKeySlot> = Vec::new();
        slots.push(DumpKeySlot { ty: k.etype, contents: enc });
        let ver: i32 = match (k.salt_type, &k.kdb_salt) {
            (Some(t), Some(b)) => {
                slots.push(DumpKeySlot { ty: t, contents: copy(b.as_slice()) });
                2
            },
            _ => 1,
        };
        let one = DumpKeyData { ver, kvno: k.kvno, slots };
        proof {
            assert(one@.slots =~= sealed_key(here, enc@).slots);
        }
        out.push(one);
        proof {
            assert(dump_key_views(out@) =~= dump_key_views(before).push(one@));
        }
        i = i + 1;
    }
    proof {
        assert(all.take(all.len() as int) =~= all);
    }
    Ok(out)
}

/// The record of an entry. `sealed` holds what encrypting each key in the
/// master key gave.
pub open spec fn record_of(
    p: Principal,
    policy: Policy,
    domain: SidView,
    now: u32,
    sealed: Seq<Result<Seq<u8>, Seq<char>>>,
) -> Result<PrincView, Seq<char>> {
    let tl = if p.tl_data@.len() == 0 {
        made_tl(p.realm@, now, p.mkvno, p.name@.joined() == "K/M"@)
    } else {
        tl_views(p.tl_data@)
    };
    match sealed_keys(key_views(p.keys@), sealed) {
        Err(e) => Err(e),
        Ok(ks) => Ok(
            PrincView {
                db_len: p.db_entry_len,
                name: p.spec_id(),
                attributes: attributes_of(p.attributes, p.requires_preauth, p.locked),
                max_life: life_of(p.max_life, policy.max_life),
                max_renewable_life: life_of(p.max_renewable_life, policy.max_renewable_life),
                expiration: p.expiration,
                pw_expiration: p.pw_expire,
                last_success: p.last_success,
                last_failed: p.last_failed,
                fail_auth_count: p.fail_auth_count,
                tl_data: with_sid(tl, domain, p.rid),
                keys: ks,
                e_data: p.e_data@,
            },
        ),
    }
}

/// The record of an entry.
pub fn to_record(
    p: &Principal,
    policy: &Policy,
    domain: &DomainSid,
    now: u32,
    sealed: &[Result<Vec<u8>, String>],
) -> (r: Result<DumpPrincipal, DumpError>)
    requires
        sealed@.len() == p.keys@.len(),
    ensures
        match r {
            Ok(d) => record_of(*p, *policy, domain@, now, opened_views(sealed@)) == Ok::<
                PrincView,
                Seq<char>,
            >(d@),
            Err(e) => e matches DumpError::Crypto(m) && record_of(
                *p,
                *policy,
                domain@,
                now,
                opened_views(sealed@),
            ) == Err::<PrincView, Seq<char>>(m@),
        },
{
    let keys: Vec<DumpKeyData> = match seal_keys(p.keys.as_slice(), sealed) {
        Ok(v) => v,
        Err(e) => {
            return Err(e);
        },
    };
    let tl_data: Vec<TlData> = if p.tl_data.len() == 0 {
        let joined = p.name.components_joined();
        let made = synthesize_tl(p.realm.as_str(), now, p.mkvno, str_eq(joined.as_str(), "K/M"));
        merge_sid_tl(made.as_slice(), domain, p.rid)
    } else {
        merge_sid_tl(p.tl_data.as_slice(), domain, p.rid)
    };
    Ok(
        DumpPrincipal {
            db_len: p.db_entry_len,
            name: p.id(),
            attributes: dump_attributes(p),
            max_life: dump_life(p.max_life, policy.max_life),
            max_renewable_life: dump_life(p.max_renewable_life, policy.max_renewable_life),
            expiration: p.expiration,
            pw_expiration: p.pw_expire,
            last_success: p.last_success,
            last_failed: p.last_failed,
            fail_auth_count: p.fail_auth_count,
            tl_data,
            keys,
            e_data: copy(p.e_data.as_slice()),
        },
    )
}

/// A key has both a salt type and a salt, or neither.
pub open spec fn salts_match(k: KeyView) -> bool {
    k.salt_type is Some <==> k.kdb_salt is Some
}

/// Keys that were written and open to what they were read back as they were.
pub proof fn law_keys_round_trip(
    ks: Seq<KeyView>,
    sealed: Seq<Result<Seq<u8>, Seq<char>>>,
    opened: Seq<Result<Seq<u8>, Seq<char>>>,
    name: Seq<char>,
)
    requires
        forall|i: int| 0 <= i < ks.len() ==> (#[trigger] sealed[i]) is Ok,
        forall|i: int|
            0 <= i < ks.len() ==> (#[trigger] opened[i]) == Ok::<Seq<u8>, Seq<char>>(ks[i].key),
        forall|i: int| 0 <= i < ks.len() ==> salts_match(#[trigger] ks[i]),
    ensures
        sealed_keys(ks, sealed) matches Ok(d) && opened_keys(d, opened, name) == Ok::<
            Seq<KeyView>,
            DumpErrorView,
        >(ks) && d.len() == ks.len(),
    decreases ks.len(),
{
    if ks.len() == 0 {
        assert(ks =~= Seq::<KeyView>::empty());
    } else {
        let front = ks.drop_last();
        let n = ks.len() - 1;
        assert forall|i: int| 0 <= i < front.len() implies (#[trigger] opened[i]) == Ok::<
            Seq<u8>,
            Seq<char>,
        >(front[i].key) by {
            assert(front[i] == ks[i]);
        }
        assert forall|i: int| 0 <= i < front.len() implies salts_match(#[trigger] front[i]) by {
            assert(front[i] == ks[i]);
        }
        law_keys_round_trip(front, sealed, opened, name);
        assert(sealed[n] is Ok);
        assert(salts_match(ks[n]));
        assert(opened[n] == Ok::<Seq<u8>, Seq<char>>(ks[n].key));
        let enc = sealed[n]->Ok_0;
        let before = sealed_keys(front, sealed)->Ok_0;
        let d = sealed_keys(ks, sealed)->Ok_0;
        assert(d == before.push(sealed_key(ks.last(), enc)));
        assert(d.drop_last() =~= before);
        assert(key_of(sealed_key(ks.last(), enc), ks.last().key) =~= ks.last());
        assert(front.push(ks.last()) =~= ks);
    }
}

/// A word read where it stands.
proof fn lemma_word_at(b: Seq<u8>, i: int, v: u32)
    requires
        0 <= i,
        i + 4 <= b.len(),
        b.subrange(i, i + 4) == le32(v),
    ensures
        from_le32(b, i) == v,
{
    crate::bytes::lemma_le32_round_trip(v);
    let w = b.subrange(i, i + 4);
    assert(w[0] == b[i] && w[1] == b[i + 1] && w[2] == b[i + 2] && w[3] == b[i + 3]);
    assert(from_le32(b, i) == from_le32(w, 0));
}

/// Words read where they stand.
proof fn lemma_words_at(b: Seq<u8>, i: int, v: Seq<u32>)
    requires
        0 <= i,
        i + words_le(v).len() <= b.len(),
        b.subrange(i, i + words_le(v).len()) == words_le(v),
    ensures
        words_le(v).len() == 4 * v.len(),
        words_at(b, i, v.len()) == v,
    decreases v.len(),
{
    if v.len() == 0 {
        assert(words_at(b, i, 0) =~= v);
    } else {
        let front = v.drop_last();
        let n = words_le(front).len() as int;
        let w = b.subrange(i, i + words_le(v).len());
        assert(b.subrange(i, i + n) =~= w.subrange(0, n));
        assert(w.subrange(0, n) =~= words_le(front));
        lemma_words_at(b, i, front);
        assert(b.subrange(i + n, i + n + 4) =~= w.subrange(n, n + 4));
        assert(w.subrange(n, n + 4) =~= le32(v.last()));
        lemma_word_at(b, i + n, v.last());
        assert forall|k: int| 0 <= k < v.len() implies words_at(b, i, v.len())[k] == v[k] by {
            if k < front.len() {
                assert(words_at(b, i, front.len())[k] == front[k]);
            }
        }
        assert(words_at(b, i, v.len()) =~= v);
    }
}

/// Items but those of a type hold none of it.
proof fn lemma_others(tl: Seq<BlobView>, ty: i32)
    ensures
        forall|i: int| 0 <= i < others(tl, ty).len() ==> (#[trigger] others(tl, ty)[i]).ty != ty,
    decreases tl.len(),
{
    if tl.len() > 0 {
        lemma_others(tl.drop_last(), ty);
        let front = others(tl.drop_last(), ty);
        assert forall|i: int| 0 <= i < others(tl, ty).len() implies (#[trigger] others(
            tl,
            ty,
        )[i]).ty != ty by {
            if i < front.len() {
                assert(others(tl, ty)[i] == front[i]);
            }
        }
    }
}

/// The first item of a type, where it is the last of all.
proof fn lemma_first_last(tl: Seq<BlobView>, b: BlobView)
    requires
        forall|i: int| 0 <= i < tl.len() ==> (#[trigger] tl[i]).ty != b.ty,
    ensures
        first_of_type(tl.push(b), b.ty) == Some(b.contents),
    decreases tl.len(),
{
    if tl.len() > 0 {
        let rest = tl.drop_first();
        assert forall|i: int| 0 <= i < rest.len() implies (#[trigger] rest[i]).ty != b.ty by {
            assert(rest[i] == tl[i + 1]);
        }
        lemma_first_last(rest, b);
        assert(tl.push(b).drop_first() =~= rest.push(b));
        assert(tl[0].ty != b.ty);
    }
}

/// A domain identifier and a relative identifier that were put into tagged
/// data are read out of it.
pub proof fn law_sid_round_trip(tl: Seq<BlobView>, domain: SidView, rid: u32)
    requires
        domain.subs.len() <= 255,
        domain.authority.len() == 6,
    ensures
        sid_of(with_sid(tl, domain, rid)) == (Some(domain), rid),
{
    lemma_others(tl, TL_KERBER_SID);
    let b = sid_bytes(domain, rid);
    lemma_first_last(
        others(tl, TL_KERBER_SID),
        BlobView { ty: TL_KERBER_SID, contents: b },
    );
    assert(b.subrange(1, 5) =~= le32(rid));
    lemma_word_at(b, 1, rid);
    assert(b.subrange(7, 13) =~= domain.authority);
    assert(b.subrange(13, b.len() as int) =~= words_le(domain.subs));
    lemma_words_at(b, 13, domain.subs);
}

/// A name that is written with its realm is read back, where its components
/// hold no slash, the realm no at sign, and neither is empty; its type is the
/// one that such components have.
pub proof fn law_name_round_trip(parts: Seq<Seq<char>>, realm: Seq<char>, refusal: Seq<char>)
    requires
        parts.len() > 0,
        forall|i: int| 0 <= i < parts.len() ==> !(#[trigger] parts[i]).contains('/'),
        ascii_parts(parts),
        crate::text::join(parts, '/').len() > 0,
        realm.len() > 0,
        !realm.contains('@'),
    ensures
        unparsed(crate::text::join(parts, '/').push('@') + realm, refusal) == Ok::<
            (NameView, Seq<char>),
            Seq<char>,
        >((NameView { name_type: name_type_of(parts), components: parts }, realm)),
{
    let left = crate::text::join(parts, '/');
    let s = left.push('@') + realm;
    crate::text::law_split_of_join(parts, '/');
    lemma_last_position(s, '@');
    let at = last_position(s, '@');
    assert(s[left.len() as int] == '@');
    if at > left.len() {
        assert(s[at] == realm[at - left.len() - 1]);
        assert(realm.contains('@'));
    }
    assert(at == left.len());
    assert(s.take(at) =~= left);
    assert(s.skip(at + 1) =~= realm);
}

/// An entry that was written is read back with its name, its realm, its keys
/// and its relative identifier, and the domain identifier with it, where its
/// keys open to what they were.
pub proof fn law_entry_round_trip(
    p: Principal,
    policy: Policy,
    domain: SidView,
    now: u32,
    sealed: Seq<Result<Seq<u8>, Seq<char>>>,
    opened: Seq<Result<Seq<u8>, Seq<char>>>,
    mkey: Seq<u8>,
    refusal: Seq<char>,
)
    requires
        p.name@.components.len() > 0,
        forall|i: int|
            0 <= i < p.name@.components.len() ==> !(#[trigger] p.name@.components[i]).contains('/'),
        ascii_parts(p.name@.components),
        p.name@.joined().len() > 0,
        p.realm@.len() > 0,
        !p.realm@.contains('@'),
        domain.subs.len() <= 255,
        domain.authority.len() == 6,
        forall|i: int| 0 <= i < p.keys@.len() ==> (#[trigger] sealed[i]) is Ok,
        forall|i: int|
            0 <= i < p.keys@.len() ==> (#[trigger] opened[i]) == Ok::<Seq<u8>, Seq<char>>(
                p.keys@[i].key@,
            ),
        forall|i: int| 0 <= i < p.keys@.len() ==> salts_match((#[trigger] p.keys@[i])@),
        p.name@.joined() == "K/M"@ && p.keys@.len() > 0 ==> p.keys@[0].key@ == mkey,
    ensures
        record_of(p, policy, domain, now, sealed) matches Ok(d) && spec_entry(
            d,
            opened,
            mkey,
            refusal,
        ) == Ok::<(NameView, Seq<char>, Seq<KeyView>), DumpErrorView>(
            (
                NameView {
                    name_type: name_type_of(p.name@.components),
                    components: p.name@.components,
                },
                p.realm@,
                key_views(p.keys@),
            ),
        ) && sid_of(d.tl_data) == (Some(domain), p.rid),
{
    let ks = key_views(p.keys@);
    assert forall|i: int| 0 <= i < ks.len() implies (#[trigger] opened[i]) == Ok::<
        Seq<u8>,
        Seq<char>,
    >(ks[i].key) by {
        assert(ks[i] == p.keys@[i]@);
    }
    assert forall|i: int| 0 <= i < ks.len() implies salts_match(#[trigger] ks[i]) by {
        assert(ks[i] == p.keys@[i]@);
    }
    law_keys_round_trip(ks, sealed, opened, p.spec_id());
    law_name_round_trip(p.name@.components, p.realm@, refusal);
    let tl = if p.tl_data@.len() == 0 {
        made_tl(p.realm@, now, p.mkvno, p.name@.joined() == "K/M"@)
    } else {
        tl_views(p.tl_data@)
    };
    law_sid_round_trip(tl, domain, p.rid);
    if ks.len() > 0 {
        assert(ks[0] == p.keys@[0]@);
    }
}

/// Each attribute bit of an entry but two is set in its record exactly where it
/// is set in the entry: for such bits the two numbers agree. The other two,
/// which ask for pre-authentication and lock the entry, follow what the entry
/// says of these.
pub proof fn law_record_keeps_attributes(
    p: Principal,
    policy: Policy,
    domain: SidView,
    now: u32,
    sealed: Seq<Result<Seq<u8>, Seq<char>>>,
    b: u32,
)
    requires
        record_of(p, policy, domain, now, sealed) is Ok,
    ensures
        ({
            let written = record_of(p, policy, domain, now, sealed)->Ok_0.attributes;
            &&& b & KDB_REQUIRES_PRE_AUTH == 0 && b & KDB_DISALLOW_ALL_TIX == 0 ==> written & b
                == p.attributes & b
            &&& written & KDB_REQUIRES_PRE_AUTH == (if p.requires_preauth {
                KDB_REQUIRES_PRE_AUTH
            } else {
                0
            })
            &&& written & KDB_DISALLOW_ALL_TIX == (if p.locked {
                KDB_DISALLOW_ALL_TIX
            } else {
                0
            })
        }),
{
    let a = p.attributes;
    assert(b & 0x80 == 0 && b & 0x40 == 0 ==> {
        &&& ((a | 0x80) | 0x40) & b == a & b
        &&& ((a | 0x80) & !0x40) & b == a & b
        &&& ((a & !0x80) | 0x40) & b == a & b
        &&& ((a & !0x80) & !0x40) & b == a & b
    }) by (bit_vector);
    assert({
        &&& ((a | 0x80) | 0x40) & 0x80 == 0x80 && ((a | 0x80) | 0x40) & 0x40 == 0x40
        &&& ((a | 0x80) & !0x40) & 0x80 == 0x80 && ((a | 0x80) & !0x40) & 0x40 == 0
        &&& ((a & !0x80) | 0x40) & 0x80 == 0 && ((a & !0x80) | 0x40) & 0x40 == 0x40
        &&& ((a & !0x80) & !0x40) & 0x80 == 0 && ((a & !0x80) & !0x40) & 0x40 == 0
    }) by (bit_vector);
}

/// The record of an entry has the entry's times, counts and data, and its lives
/// as far as they fit; an entry without a life of its own has the realm's. A
/// record is read into an entry with the same.
pub proof fn law_record_keeps_fields(
    p: Principal,
    policy: Policy,
    domain: SidView,
    now: u32,
    sealed: Seq<Result<Seq<u8>, Seq<char>>>,
    q: Principal,
    name: NameView,
    realm: Seq<char>,
    ks: Seq<KeyView>,
)
    requires
        record_of(p, policy, domain, now, sealed) is Ok,
        is_entry_of(q, record_of(p, policy, domain, now, sealed)->Ok_0, name, realm, ks),
    ensures
        ({
            let d = record_of(p, policy, domain, now, sealed)->Ok_0;
            &&& d.expiration == p.expiration == q.expiration
            &&& d.pw_expiration == p.pw_expire == q.pw_expire
            &&& d.last_success == p.last_success == q.last_success
            &&& d.last_failed == p.last_failed == q.last_failed
            &&& d.fail_auth_count == p.fail_auth_count == q.fail_auth_count
            &&& d.db_len == p.db_entry_len == q.db_entry_len
            &&& d.e_data == p.e_data@ && q.e_data@ == p.e_data@
            &&& q.requires_preauth == p.requires_preauth
            &&& q.locked == p.locked
            &&& q.attributes == d.attributes
            &&& q.max_life == d.max_life
            &&& q.max_renewable_life == d.max_renewable_life
            &&& p.max_life == 0 && policy.max_life <= u32::MAX ==> d.max_life == policy.max_life
            &&& 0 < p.max_life <= u32::MAX ==> d.max_life == p.max_life
            &&& p.max_life > u32::MAX ==> d.max_life == u32::MAX
            &&& p.max_renewable_life == 0 && policy.max_renewable_life <= u32::MAX
                ==> d.max_renewable_life == policy.max_renewable_life
            &&& 0 < p.max_renewable_life <= u32::MAX ==> d.max_renewable_life
                == p.max_renewable_life
            &&& p.max_renewable_life > u32::MAX ==> d.max_renewable_life == u32::MAX
        }),
{
    law_record_keeps_attributes(p, policy, domain, now, sealed, 0);
}

/// Each attribute bit of an entry but the two that it keeps apart is set in the
/// entry read back from its record exactly where it is set in the entry.
pub proof fn law_read_entry_keeps_attributes(
    p: Principal,
    policy: Policy,
    domain: SidView,
    now: u32,
    sealed: Seq<Result<Seq<u8>, Seq<char>>>,
    q: Principal,
    name: NameView,
    realm: Seq<char>,
    ks: Seq<KeyView>,
    b: u32,
)
    requires
        record_of(p, policy, domain, now, sealed) is Ok,
        is_entry_of(q, record_of(p, policy, domain, now, sealed)->Ok_0, name, realm, ks),
        b & KDB_REQUIRES_PRE_AUTH == 0,
        b & KDB_DISALLOW_ALL_TIX == 0,
    ensures
        q.attributes & b == p.attributes & b,
{
    law_record_keeps_attributes(p, policy, domain, now, sealed, b);
}

/// Putting a domain identifier into tagged data drops no item of another type
/// and changes no order: what is kept of two lists together is what is kept of
/// each, and the identifier comes last.
pub proof fn law_other_items_are_kept(
    a: Seq<BlobView>,
    b: Seq<BlobView>,
    x: BlobView,
    domain: SidView,
    rid: u32,
)
    ensures
        others(a + b, TL_KERBER_SID) == others(a, TL_KERBER_SID) + others(b, TL_KERBER_SID),
        x.ty != TL_KERBER_SID ==> others(seq![x], TL_KERBER_SID) == seq![x],
        x.ty == TL_KERBER_SID ==> others(seq![x], TL_KERBER_SID).len() == 0,
        with_sid(a, domain, rid).drop_last() == others(a, TL_KERBER_SID),
        with_sid(a, domain, rid).last().ty == TL_KERBER_SID,
    decreases b.len(),
{
    reveal_with_fuel(others, 2);
    assert(seq![x].drop_last() =~= Seq::<BlobView>::empty());
    assert(others(seq![x], TL_KERBER_SID) =~= (if x.ty == TL_KERBER_SID {
        Seq::<BlobView>::empty()
    } else {
        seq![x]
    }));
    assert(with_sid(a, domain, rid).drop_last() =~= others(a, TL_KERBER_SID));
    if b.len() == 0 {
        assert(a + b =~= a);
        assert(others(a, TL_KERBER_SID) + others(b, TL_KERBER_SID) =~= others(a, TL_KERBER_SID));
    } else {
        law_other_items_are_kept(a, b.drop_last(), x, domain, rid);
        assert((a + b).drop_last() =~= a + b.drop_last());
        assert((a + b).last() == b.last());
        assert(others(a + b, TL_KERBER_SID) =~= others(a, TL_KERBER_SID) + others(
            b,
            TL_KERBER_SID,
        ));
    }
}

/// The salt of an entry is the first that its keys keep: that of a key with a
/// salt of the default or the special type that is not empty, behind keys that
/// have none.
pub proof fn law_first_salt_is_the_entrys(
    before: Seq<DumpKeyView>,
    k: DumpKeyView,
    behind: Seq<DumpKeyView>,
)
    requires
        forall|i: int|
            0 <= i < before.len() ==> (#[trigger] before[i]).ver < 2 || before[i].slots.len() < 2,
        k.ver >= 2,
        k.slots.len() >= 2,
        k.slots[1].ty == 0 || k.slots[1].ty == 4,
        k.slots[1].contents.len() > 0,
    ensures
        first_salt(before) is None,
        first_salt(before.push(k) + behind) == Some(k.slots[1].contents),
    decreases before.len() + behind.len(),
{
    if behind.len() > 0 {
        law_first_salt_is_the_entrys(before, k, behind.drop_last());
        let all = before.push(k) + behind;
        assert(all.drop_last() =~= before.push(k) + behind.drop_last());
    } else {
        assert(before.push(k) + behind =~= before.push(k));
        assert(before.push(k).drop_last() =~= before);
        if before.len() > 0 {
            let front = before.drop_last();
            assert forall|i: int| 0 <= i < front.len() implies (#[trigger] front[i]).ver < 2
                || front[i].slots.len() < 2 by {
                assert(front[i] == before[i]);
            }
            law_first_salt_is_the_entrys(front, k, behind);
            assert(before[before.len() - 1].ver < 2 || before[before.len() - 1].slots.len() < 2);
        }
    }
}

/// The master key version of an entry without tagged data is read back from its
/// record.
pub proof fn law_master_version_is_kept(
    p: Principal,
    policy: Policy,
    domain: SidView,
    now: u32,
    sealed: Seq<Result<Seq<u8>, Seq<char>>>,
)
    requires
        record_of(p, policy, domain, now, sealed) is Ok,
        p.tl_data@.len() == 0,
    ensures
        mkvno_of(record_of(p, policy, domain, now, sealed)->Ok_0.tl_data) == p.mkvno,
{
    let is_km = p.name@.joined() == "K/M"@;
    let tl = made_tl(p.realm@, now, p.mkvno, is_km);
    assert forall|i: int| 0 <= i < tl.len() implies (#[trigger] tl[i]).ty != TL_KERBER_SID by {}
    lemma_others_all(tl, TL_KERBER_SID);
    let all = with_sid(tl, domain, p.rid);
    if is_km {
        assert(all[0] == tl[0]);
        assert(all[1] == tl[1]);
        assert(all[2] == tl[2]);
        assert(all.drop_first()[0] == tl[1]);
        assert(all.drop_first().drop_first()[0] == tl[2]);
    } else {
        assert(all[0] == tl[0]);
        assert(all[1] == tl[1]);
        assert(all.drop_first()[0] == tl[1]);
    }
    reveal_with_fuel(mkvno_of, 4);
}

/// Items none of which is of a type are all others.
proof fn lemma_others_all(tl: Seq<BlobView>, ty: i32)
    requires
        forall|i: int| 0 <= i < tl.len() ==> (#[trigger] tl[i]).ty != ty,
    ensures
        others(tl, ty) == tl,
    decreases tl.len(),
{
    if tl.len() > 0 {
        let front = tl.drop_last();
        assert forall|i: int| 0 <= i < front.len() implies (#[trigger] front[i]).ty != ty by {
            assert(front[i] == tl[i]);
        }
        lemma_others_all(front, ty);
        assert(tl[tl.len() - 1].ty != ty);
        assert(front.push(tl.last()) =~= tl);
    } else {
        assert(others(tl, ty) =~= tl);
    }
}

} // verus!
