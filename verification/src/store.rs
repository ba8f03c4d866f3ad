//! Principal entries, their keys, and the realm's ticket policy.

use crate::msg::{key_octets, EncryptionKey};
use crate::name::{PrincipalName, NT_UNKNOWN};
use vstd::prelude::*;
use vstd::string::*;

verus! {

/// Postdated tickets are not allowed.
pub const KDB_DISALLOW_POSTDATED: u32 = 0x0000_0001;

/// Forwardable tickets are not allowed.
pub const KDB_DISALLOW_FORWARDABLE: u32 = 0x0000_0002;

/// Tickets got with a TGT are not allowed.
pub const KDB_DISALLOW_TGT_BASED: u32 = 0x0000_0004;

/// Renewable tickets are not allowed.
pub const KDB_DISALLOW_RENEWABLE: u32 = 0x0000_0008;

/// Proxiable tickets are not allowed.
pub const KDB_DISALLOW_PROXIABLE: u32 = 0x0000_0010;

/// Tickets encrypted in a session key are not allowed.
pub const KDB_DISALLOW_DUP_SKEY: u32 = 0x0000_0020;

/// No tickets at all.
pub const KDB_DISALLOW_ALL_TIX: u32 = 0x0000_0040;

/// Pre-authentication is required.
pub const KDB_REQUIRES_PRE_AUTH: u32 = 0x0000_0080;

/// Hardware pre-authentication is required.
pub const KDB_REQUIRES_HW_AUTH: u32 = 0x0000_0100;

/// The password must be changed.
pub const KDB_REQUIRES_PWCHANGE: u32 = 0x0000_0200;

/// The principal is no server.
pub const KDB_DISALLOW_SVR: u32 = 0x0000_1000;

/// The password-changing service.
pub const KDB_PWCHANGE_SERVICE: u32 = 0x0000_2000;

/// DES-MD5 is supported.
pub const KDB_SUPPORT_DESMD5: u32 = 0x0000_4000;

/// A new principal.
pub const KDB_NEW_PRINC: u32 = 0x0000_8000;

/// The server may be trusted with delegated tickets.
pub const KDB_OK_AS_DELEGATE: u32 = 0x0010_0000;

/// The server may get forwardable tickets to itself for any user.
pub const KDB_OK_TO_AUTH_AS_DELEGATE: u32 = 0x0020_0000;

/// Tickets for the server carry no authorization data.
pub const KDB_NO_AUTH_DATA_REQUIRED: u32 = 0x0040_0000;

/// The keys may not be extracted.
pub const KDB_LOCKDOWN_KEYS: u32 = 0x0080_0000;

/// Tagged-data type of the last administrative unlock.
pub const TL_LAST_ADMIN_UNLOCK: i32 = 0x0700;

/// Tagged-data type of the record that administration keeps.
pub const TL_KADM_DATA: i32 = 0x0003;

/// aes256-cts-hmac-sha1-96.
pub const AES256_CTS_HMAC_SHA1_96: i32 = 18;

/// des3-cbc-sha1.
pub const DES3_CBC_SHA1: i32 = 16;

/// rc4-hmac.
pub const RC4_HMAC: i32 = 23;

/// The first relative identifier given to a user.
pub const RID_FIRST_USER: u32 = 1000;

/// One long-term key.
#[derive(Clone, Debug, PartialEq, Eq)]
pub struct KeyEntry {
    /// Encryption type.
    pub etype: i32,
    /// Key version number.
    pub kvno: u32,
    /// Key octets.
    pub key: Vec<u8>,
    /// Salt type, where the entry keeps one.
    pub salt_type: Option<i32>,
    /// Salt, where the entry keeps one.
    pub kdb_salt: Option<Vec<u8>>,
}

impl KeyEntry {
    /// Type and octets of the key.
    pub open spec fn octets(self) -> (i32, Seq<u8>) {
        (self.etype, self.key@)
    }

    /// The key as it travels in messages.
    pub fn to_key(&self) -> (r: EncryptionKey)
        ensures
            key_octets(r) == self.octets(),
    {
        EncryptionKey { keytype: self.etype, keyvalue: crate::bytes::copy(self.key.as_slice()) }
    }
}

/// What a key entry says.
#[verifier::ext_equal]
pub struct KeyView {
    /// Encryption type.
    pub etype: i32,
    /// Key version number.
    pub kvno: u32,
    /// Key octets.
    pub key: Seq<u8>,
    /// Salt type, where the entry keeps one.
    pub salt_type: Option<i32>,
    /// Salt, where the entry keeps one.
    pub kdb_salt: Option<Seq<u8>>,
}

impl View for KeyEntry {
    type V = KeyView;

    open spec fn view(&self) -> KeyView {
        KeyView {
            etype: self.etype,
            kvno: self.kvno,
            key: self.key@,
            salt_type: self.salt_type,
            kdb_salt: match self.kdb_salt {
                Some(s) => Some(s@),
                None => None,
            },
        }
    }
}

/// What key entries say.
pub open spec fn key_views(v: Seq<KeyEntry>) -> Seq<KeyView> {
    v.map_values(|k: KeyEntry| k@)
}

/// One tagged-data item.
#[derive(Clone, Debug, PartialEq, Eq)]
pub struct TlData {
    /// Type.
    pub ty: i32,
    /// Contents.
    pub contents: Vec<u8>,
}

/// A database entry.
#[derive(Clone, Debug, PartialEq, Eq)]
pub struct Principal {
    /// Name.
    pub name: PrincipalName,
    /// Realm.
    pub realm: String,
    /// Keys.
    pub keys: Vec<KeyEntry>,
    /// Older keys.
    pub key_history: Vec<KeyEntry>,
    /// Salt.
    pub salt: Vec<u8>,
    /// Pre-authentication is required.
    pub requires_preauth: bool,
    /// Longest ticket life in seconds (0: no limit of its own).
    pub max_life: u64,
    /// No tickets are given.
    pub locked: bool,
    /// Password expiry (0: never).
    pub pw_expire: u32,
    /// Attribute bits.
    pub attributes: u32,
    /// Longest renewable life in seconds.
    pub max_renewable_life: u64,
    /// Expiry (0: never).
    pub expiration: u32,
    /// Last successful authentication.
    pub last_success: u32,
    /// Last failed authentication.
    pub last_failed: u32,
    /// Failures since the last success.
    pub fail_auth_count: u32,
    /// Master key version.
    pub mkvno: u16,
    /// Entry length field of the dump.
    pub db_entry_len: u32,
    /// Tagged data.
    pub tl_data: Vec<TlData>,
    /// Extra data.
    pub e_data: Vec<u8>,
    /// Relative identifier.
    pub rid: u32,
    /// Name of the bound password policy.
    pub pw_policy: Option<String>,
    /// String attributes, name and value.
    pub string_attrs: Vec<(String, String)>,
    /// Services this principal may delegate to.
    pub s4u_allowed_to: Vec<String>,
    /// Services that may delegate to this principal.
    pub s4u_allowed_from: Vec<String>,
}

/// A password policy.
#[derive(Clone, Debug, PartialEq, Eq)]
pub struct NamedPolicy {
    /// Name.
    pub name: String,
    /// Failures before lockout (0: no lockout).
    pub max_fail: u32,
    /// Seconds after which the failure count starts again.
    pub pw_failcnt_interval: u32,
    /// Seconds that a lockout lasts (0: until unlocked).
    pub pw_lockout_duration: u32,
}

/// The realm's ticket policy.
#[derive(Clone, Debug, PartialEq, Eq)]
pub struct Policy {
    /// Longest ticket life in seconds (0: no limit).
    pub max_life: u64,
    /// Renewable life written for entries that have none.
    pub max_renewable_life: u64,
    /// Longest renewable life in seconds.
    pub realm_max_renewable_life: u64,
    /// Clock skew in seconds.
    pub skew: i64,
    /// Encryption types that the crypto layer knows.
    pub known_enctypes: Vec<i32>,
    /// Encryption types that may be used.
    pub permitted_enctypes: Vec<i32>,
    /// des3 session keys are allowed.
    pub allow_des3: bool,
    /// rc4 session keys are allowed.
    pub allow_rc4: bool,
    /// No PAC in tickets.
    pub disable_pac: bool,
    /// Anonymous clients get local TGTs only.
    pub restrict_anon: bool,
    /// Tickets whose transited path fails the check are refused.
    pub reject_bad_transit: bool,
    /// Service types that are host based.
    pub host_based_services: String,
    /// Service types that get no referral.
    pub no_host_referral: String,
    /// A PKINIT authority is provisioned.
    pub pkinit: bool,
    /// SPAKE groups offered.
    pub spake_preauth_groups: Vec<i32>,
    /// Indicators of a PKINIT pre-authentication.
    pub pkinit_indicators: Vec<String>,
    /// Indicators of a SPAKE pre-authentication.
    pub spake_preauth_indicators: Vec<String>,
    /// Indicator of an encrypted challenge.
    pub encrypted_challenge_indicator: Option<String>,
}

/// Whether attribute `bit` is set.
pub open spec fn attr_set(attributes: u32, bit: u32) -> bool {
    attributes & bit != 0
}

/// Whether attribute `bit` of `p` is set.
pub fn attr(p: &Principal, bit: u32) -> (r: bool)
    ensures
        r == attr_set(p.attributes, bit),
{
    p.attributes & bit != 0
}

impl Principal {
    /// The entry has no attributes, no limits but its longest life, no history
    /// and no data beside its keys.
    pub open spec fn is_plain(&self) -> bool {
        &&& self.key_history@.len() == 0
        &&& self.attributes == 0
        &&& self.max_renewable_life == 0
        &&& self.expiration == 0
        &&& self.last_success == 0
        &&& self.last_failed == 0
        &&& self.fail_auth_count == 0
        &&& self.mkvno == 0
        &&& self.db_entry_len == 0
        &&& self.tl_data@.len() == 0
        &&& self.e_data@.len() == 0
        &&& self.pw_policy is None
        &&& self.string_attrs@.len() == 0
        &&& self.s4u_allowed_to@.len() == 0
        &&& self.s4u_allowed_from@.len() == 0
    }

    /// An entry without name, keys, attributes or limits.
    pub fn nobody() -> (r: Principal)
        ensures
            r.is_plain(),
            r.name@.name_type == NT_UNKNOWN,
            r.name@.components.len() == 0,
            r.realm@.len() == 0,
            r.keys@.len() == 0,
            r.salt@.len() == 0,
            !r.requires_preauth,
            r.max_life == 0,
            !r.locked,
            r.pw_expire == 0,
            r.rid == 0,
    {
        Principal {
            name: PrincipalName { name_type: NT_UNKNOWN, name_string: Vec::new() },
            realm: String::new(),
            keys: Vec::new(),
            key_history: Vec::new(),
            salt: Vec::new(),
            requires_preauth: false,
            max_life: 0,
            locked: false,
            pw_expire: 0,
            attributes: 0,
            max_renewable_life: 0,
            expiration: 0,
            last_success: 0,
            last_failed: 0,
            fail_auth_count: 0,
            mkvno: 0,
            db_entry_len: 0,
            tl_data: Vec::new(),
            e_data: Vec::new(),
            rid: 0,
            pw_policy: None,
            string_attrs: Vec::new(),
            s4u_allowed_to: Vec::new(),
            s4u_allowed_from: Vec::new(),
        }
    }

    /// The store id `name@REALM`.
    pub open spec fn spec_id(&self) -> Seq<char> {
        self.name@.joined().push('@') + self.realm@
    }

    /// The store id `name@REALM`.
    pub fn id(&self) -> (r: String)
        ensures
            r@ == self.spec_id(),
    {
        let mut out = self.name.components_joined();
        out.push('@');
        out.append(self.realm.as_str());
        out
    }
}

/// The largest key version, 0 where there is no key.
pub open spec fn max_kvno(keys: Seq<KeyEntry>) -> u32
    decreases keys.len(),
{
    if keys.len() == 0 {
        0
    } else if keys.last().kvno > max_kvno(keys.drop_last()) {
        keys.last().kvno
    } else {
        max_kvno(keys.drop_last())
    }
}

/// `max_kvno` bounds every key version and is one of them.
pub proof fn lemma_max_kvno(keys: Seq<KeyEntry>)
    ensures
        forall|i: int| 0 <= i < keys.len() ==> (#[trigger] keys[i]).kvno <= max_kvno(keys),
        max_kvno(keys) > 0 ==> exists|i: int| 0 <= i < keys.len() && keys[i].kvno == max_kvno(keys),
    decreases keys.len(),
{
    if keys.len() > 0 {
        let t = keys.drop_last();
        lemma_max_kvno(t);
        assert forall|i: int| 0 <= i < keys.len() implies (#[trigger] keys[i]).kvno <= max_kvno(
            keys,
        ) by {
            if i < t.len() {
                assert(t[i] == keys[i]);
            }
        }
        if max_kvno(keys) > 0 {
            if keys.last().kvno > max_kvno(t) {
                assert(keys[keys.len() - 1].kvno == max_kvno(keys));
            } else {
                let j = choose|j: int| 0 <= j < t.len() && t[j].kvno == max_kvno(t);
                assert(keys[j] == t[j]);
            }
        }
    }
}

fn newest_kvno(keys: &[KeyEntry]) -> (r: u32)
    ensures
        r == max_kvno(keys@),
{
    let mut best: u32 = 0;
    let mut i: usize = 0;
    while i < keys.len()
        invariant
            i <= keys.len(),
            best == max_kvno(keys@.take(i as int)),
        decreases keys.len() - i,
    {
        proof {
            assert(keys@.take(i + 1).drop_last() =~= keys@.take(i as int));
            assert(keys@.take(i + 1).last() == keys@[i as int]);
        }
        if keys[i].kvno > best {
            best = keys[i].kvno;
        }
        i = i + 1;
    }
    proof {
        assert(keys@.take(keys@.len() as int) =~= keys@);
    }
    best
}

impl Policy {
    /// Whether `etype` may be used.
    pub open spec fn permits(&self, etype: i32) -> bool {
        self.permitted_enctypes@.contains(etype)
    }

    /// Whether the crypto layer knows `etype`.
    pub open spec fn knows(&self, etype: i32) -> bool {
        self.known_enctypes@.contains(etype)
    }

    /// Whether `k` is a permitted key of the wanted type (any type where
    /// none is wanted) and of version `kvno`.
    pub open spec fn key_matches(&self, k: KeyEntry, want: Option<i32>, kvno: u32) -> bool {
        self.permits(k.etype) && k.kvno == kvno && (want matches Some(e) ==> k.etype == e)
    }

    /// `found` is the first permitted key of `p` of the wanted type and
    /// version; version 0 stands for the newest.
    pub open spec fn finds_enctype(
        &self,
        p: Principal,
        want: Option<i32>,
        kvno: u32,
        found: Option<usize>,
    ) -> bool {
        let v = if kvno == 0 {
            max_kvno(p.keys@)
        } else {
            kvno
        };
        match found {
            Some(i) => {
                &&& i < p.keys@.len()
                &&& self.key_matches(p.keys@[i as int], want, v)
                &&& forall|j: int|
                    0 <= j < i ==> !self.key_matches(#[trigger] p.keys@[j], want, v)
            },
            None => forall|j: int|
                0 <= j < p.keys@.len() ==> !self.key_matches(#[trigger] p.keys@[j], want, v),
        }
    }

    /// Whether `etype` may be used.
    pub fn etype_permitted(&self, etype: i32) -> (r: bool)
        ensures
            r == self.permits(etype),
    {
        contains_i32(self.permitted_enctypes.as_slice(), etype)
    }

    /// Whether the crypto layer knows `etype`.
    pub fn etype_known(&self, etype: i32) -> (r: bool)
        ensures
            r == self.knows(etype),
    {
        contains_i32(self.known_enctypes.as_slice(), etype)
    }

    /// The first permitted key of `p` of the wanted type and version;
    /// version 0 stands for the newest.
    pub fn find_enctype(&self, p: &Principal, want: Option<i32>, kvno: u32) -> (r: Option<usize>)
        ensures
            self.finds_enctype(*p, want, kvno, r),
    {
        let v: u32 = if kvno == 0 {
            newest_kvno(p.keys.as_slice())
        } else {
            kvno
        };
        let mut i: usize = 0;
        while i < p.keys.len()
            invariant
                v == (if kvno == 0 {
                    max_kvno(p.keys@)
                } else {
                    kvno
                }),
                i <= p.keys.len(),
                forall|j: int| 0 <= j < i ==> !self.key_matches(#[trigger] p.keys@[j], want, v),
            decreases p.keys.len() - i,
        {
            let k = &p.keys[i];
            let wanted: bool = match want {
                Some(e) => k.etype == e,
                None => true,
            };
            if wanted && k.kvno == v && self.etype_permitted(k.etype) {
                return Some(i);
            }
            i = i + 1;
        }
        None
    }

    /// The first permitted key of the newest version.
    pub fn first_current_key(&self, p: &Principal) -> (r: Option<usize>)
        ensures
            self.finds_enctype(*p, None, 0, r),
    {
        self.find_enctype(p, None, 0)
    }
}

/// At most one key can be the first that matches.
pub proof fn lemma_finds_enctype_unique(
    policy: Policy,
    p: Principal,
    want: Option<i32>,
    kvno: u32,
    a: Option<usize>,
    b: Option<usize>,
)
    requires
        policy.finds_enctype(p, want, kvno, a),
        policy.finds_enctype(p, want, kvno, b),
    ensures
        a == b,
{
    if let Some(i) = a {
        let x = p.keys@[i as int];
    }
    if let Some(i) = b {
        let x = p.keys@[i as int];
    }
}

/// Whether `v` holds `x`.
pub fn contains_i32(v: &[i32], x: i32) -> (r: bool)
    ensures
        r == v@.contains(x),
{
    let mut i: usize = 0;
    while i < v.len()
        invariant
            i <= v.len(),
            forall|k: int| 0 <= k < i ==> v@[k] != x,
        decreases v.len() - i,
    {
        if v[i] == x {
            proof {
                assert(v@[i as int] == x);
            }
            return true;
        }
        i = i + 1;
    }
    false
}

/// Whether some string of `v` is `x`.
pub open spec fn has_string(v: Seq<String>, x: Seq<char>) -> bool {
    exists|i: int| 0 <= i < v.len() && (#[trigger] v[i])@ == x
}

/// Whether some string of `v` is `x`.
pub fn contains_string(v: &[String], x: &str) -> (r: bool)
    ensures
        r == has_string(v@, x@),
{
    let mut i: usize = 0;
    while i < v.len()
        invariant
            i <= v.len(),
            forall|k: int| 0 <= k < i ==> (#[trigger] v@[k])@ != x@,
        decreases v.len() - i,
    {
        if crate::text::str_eq(v[i].as_str(), x) {
            return true;
        }
        i = i + 1;
    }
    false
}

/// `i` is the first attribute of `attrs` named `key` (its length: none is).
pub open spec fn is_first_attr(attrs: Seq<(String, String)>, key: Seq<char>, i: int) -> bool {
    &&& 0 <= i <= attrs.len()
    &&& i < attrs.len() ==> attrs[i].0@ == key
    &&& forall|j: int| 0 <= j < i ==> (#[trigger] attrs[j]).0@ != key
}

/// The first attribute of `attrs` named `key`.
pub fn find_attr(attrs: &[(String, String)], key: &str) -> (r: usize)
    ensures
        is_first_attr(attrs@, key@, r as int),
{
    let mut i: usize = 0;
    while i < attrs.len()
        invariant
            i <= attrs.len(),
            forall|j: int| 0 <= j < i ==> (#[trigger] attrs@[j]).0@ != key@,
        decreases attrs.len() - i,
    {
        if crate::text::str_eq(attrs[i].0.as_str(), key) {
            return i;
        }
        i = i + 1;
    }
    i
}

/// The newest version is that of a key, and no key has a greater one.
pub proof fn law_newest_version_is_the_greatest(keys: Seq<KeyEntry>, i: int)
    ensures
        0 <= i < keys.len() ==> keys[i].kvno <= max_kvno(keys),
        keys.len() > 0 ==> exists|k: int|
            0 <= k < keys.len() && (#[trigger] keys[k]).kvno == max_kvno(keys),
        keys.len() == 0 ==> max_kvno(keys) == 0,
    decreases keys.len(),
{
    if keys.len() > 0 {
        let front = keys.drop_last();
        law_newest_version_is_the_greatest(front, i);
        if keys.last().kvno > max_kvno(front) {
            assert(keys[keys.len() - 1].kvno == max_kvno(keys));
        } else if front.len() > 0 {
            let k = choose|k: int|
                0 <= k < front.len() && (#[trigger] front[k]).kvno == max_kvno(front);
            assert(keys[k].kvno == max_kvno(keys));
        } else {
            assert(keys[keys.len() - 1].kvno == max_kvno(keys));
        }
        if 0 <= i < front.len() {
            assert(front[i] == keys[i]);
        }
    }
}

/// A key that is found may be used, is of the type that is wanted and of the
/// version that is wanted; none in front of it is. Where a key fits, one is
/// found.
pub proof fn law_found_key_fits(
    policy: Policy,
    p: Principal,
    want: Option<i32>,
    kvno: u32,
    found: Option<usize>,
    j: int,
)
    requires
        policy.finds_enctype(p, want, kvno, found),
        kvno > 0,
        0 <= j < p.keys@.len(),
        policy.permitted_enctypes@.contains(p.keys@[j].etype),
        p.keys@[j].kvno == kvno,
        want is None || want == Some(p.keys@[j].etype),
    ensures
        found matches Some(i) && i <= j && policy.permitted_enctypes@.contains(
            p.keys@[i as int].etype,
        ) && p.keys@[i as int].kvno == kvno && (want is None || want == Some(
            p.keys@[i as int].etype,
        )),
{
}

/// Where no version is wanted, the newest is; a key that is not permitted, or is
/// of another type than the one wanted, is never found.
pub proof fn law_newest_key_is_found(
    policy: Policy,
    p: Principal,
    want: Option<i32>,
    i: usize,
)
    requires
        policy.finds_enctype(p, want, 0, Some(i)),
    ensures
        i < p.keys@.len(),
        policy.permitted_enctypes@.contains(p.keys@[i as int].etype),
        want matches Some(e) ==> p.keys@[i as int].etype == e,
        forall|j: int| 0 <= j < p.keys@.len() ==> (#[trigger] p.keys@[j]).kvno
            <= p.keys@[i as int].kvno,
{
    assert forall|j: int| 0 <= j < p.keys@.len() implies (#[trigger] p.keys@[j]).kvno
        <= p.keys@[i as int].kvno by {
        law_newest_version_is_the_greatest(p.keys@, j);
    }
}

/// The id of an entry is its name and its realm.
pub proof fn law_id_is_name_and_realm(p: Principal, q: Principal)
    requires
        p.realm@ == q.realm@,
        p.spec_id() == q.spec_id(),
    ensures
        p.name@.joined() == q.name@.joined(),
{
    let a = p.name@.joined();
    let b = q.name@.joined();
    assert(p.spec_id().len() == a.len() + 1 + p.realm@.len());
    assert(q.spec_id().len() == b.len() + 1 + q.realm@.len());
    assert(p.spec_id().take(a.len() as int) =~= a);
    assert(q.spec_id().take(b.len() as int) =~= b);
}

} // verus!
