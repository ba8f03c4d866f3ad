//! Principal names.

use crate::bytes::append;
use crate::text::{
    all_ascii, is_ascii_text, join, join_strings, last_position, last_position_of,
    lemma_last_position, range_string, views,
};
use vstd::prelude::*;
use vstd::string::*;
use vstd::utf8::encode_utf8;

verus! {

/// NT-UNKNOWN.
pub const NT_UNKNOWN: i32 = 0;

/// NT-PRINCIPAL.
pub const NT_PRINCIPAL: i32 = 1;

/// NT-SRV-INST.
pub const NT_SRV_INST: i32 = 2;

/// NT-SRV-HST.
pub const NT_SRV_HST: i32 = 3;

/// NT-ENTERPRISE.
pub const NT_ENTERPRISE: i32 = 10;

/// NT-WELLKNOWN.
pub const NT_WELLKNOWN: i32 = 11;

/// NT-MS-PRINCIPAL.
pub const NT_MS_PRINCIPAL: i32 = -128;

/// A principal name without its realm.
#[derive(Clone, Debug, PartialEq, Eq)]
pub struct PrincipalName {
    /// Name type.
    pub name_type: i32,
    /// Components.
    pub name_string: Vec<String>,
}

/// What a principal name says.
#[verifier::ext_equal]
pub struct NameView {
    /// Name type.
    pub name_type: i32,
    /// Components.
    pub components: Seq<Seq<char>>,
}

impl View for PrincipalName {
    type V = NameView;

    open spec fn view(&self) -> NameView {
        NameView { name_type: self.name_type, components: views(self.name_string@) }
    }
}

impl NameView {
    /// The components with `/` between each two.
    pub open spec fn joined(self) -> Seq<char> {
        join(self.components, '/')
    }

    /// A ticket-granting service: two components, the first `krbtgt`.
    pub open spec fn is_krbtgt(self) -> bool {
        self.components.len() == 2 && self.components[0] == "krbtgt"@
    }

    /// The ticket-granting service for `realm`.
    pub open spec fn is_krbtgt_for(self, realm: Seq<char>) -> bool {
        self.is_krbtgt() && self.components[1] == realm
    }

    /// A ticket-granting service for a realm other than `realm`.
    pub open spec fn is_cross_tgs(self, realm: Seq<char>) -> bool {
        self.is_krbtgt() && self.components[1] != realm
    }

    /// The anonymous principal, by its components.
    pub open spec fn is_anonymous(self) -> bool {
        self.components =~= seq!["WELLKNOWN"@, "ANONYMOUS"@]
    }
}

/// The name of the ticket-granting service of `realm`.
pub open spec fn krbtgt_view(realm: Seq<char>) -> NameView {
    NameView { name_type: NT_SRV_INST, components: seq!["krbtgt"@, realm] }
}

/// The anonymous principal's name.
pub open spec fn anonymous_view() -> NameView {
    NameView { name_type: NT_WELLKNOWN, components: seq!["WELLKNOWN"@, "ANONYMOUS"@] }
}

/// Whether two names have the same components.
pub fn strings_eq(a: &[String], b: &[String]) -> (r: bool)
    ensures
        r == (views(a@) == views(b@)),
{
    if a.len() != b.len() {
        proof {
            assert(views(a@).len() != views(b@).len());
        }
        return false;
    }
    let mut i: usize = 0;
    while i < a.len()
        invariant
            a.len() == b.len(),
            i <= a.len(),
            forall|k: int| 0 <= k < i ==> a@[k]@ == b@[k]@,
        decreases a.len() - i,
    {
        if a[i] != b[i] {
            proof {
                assert(views(a@)[i as int] != views(b@)[i as int]);
            }
            return false;
        }
        i = i + 1;
    }
    proof {
        assert(views(a@) =~= views(b@));
    }
    true
}

/// A copy of `v`.
pub fn copy_strings(v: &[String]) -> (r: Vec<String>)
    ensures
        views(r@) == views(v@),
{
    let mut out: Vec<String> = Vec::new();
    let mut i: usize = 0;
    while i < v.len()
        invariant
            i <= v.len(),
            views(out@) == views(v@).take(i as int),
        decreases v.len() - i,
    {
        let ghost before = out@;
        out.push(v[i].clone());
        proof {
            assert(views(out@) =~= views(before).push(v@[i as int]@));
            assert(views(v@).take(i + 1) =~= views(v@).take(i as int).push(v@[i as int]@));
        }
        i = i + 1;
    }
    proof {
        assert(views(v@).take(v@.len() as int) =~= views(v@));
    }
    out
}

/// Whether a string is the given text.
fn is_text(s: &String, t: &str) -> (r: bool)
    ensures
        r == (s@ == t@),
{
    crate::text::str_eq(s.as_str(), t)
}

impl PrincipalName {
    /// The name of the ticket-granting service of `realm`.
    pub fn krbtgt(realm: &str) -> (r: PrincipalName)
        ensures
            r@ == krbtgt_view(realm@),
    {
        let mut v: Vec<String> = Vec::new();
        v.push("krbtgt".to_owned());
        v.push(realm.to_owned());
        let r = PrincipalName { name_type: NT_SRV_INST, name_string: v };
        proof {
            assert(r@.components =~= seq!["krbtgt"@, realm@]);
        }
        r
    }

    /// The anonymous principal `WELLKNOWN/ANONYMOUS`.
    pub fn anonymous() -> (r: PrincipalName)
        ensures
            r@ == anonymous_view(),
    {
        let mut v: Vec<String> = Vec::new();
        v.push("WELLKNOWN".to_owned());
        v.push("ANONYMOUS".to_owned());
        let r = PrincipalName { name_type: NT_WELLKNOWN, name_string: v };
        proof {
            assert(r@.components =~= seq!["WELLKNOWN"@, "ANONYMOUS"@]);
        }
        r
    }

    /// A copy of the name.
    pub fn copy(&self) -> (r: PrincipalName)
        ensures
            r@ == self@,
    {
        PrincipalName {
            name_type: self.name_type,
            name_string: copy_strings(self.name_string.as_slice()),
        }
    }

    /// Same type and same components.
    pub fn same(&self, other: &PrincipalName) -> (r: bool)
        ensures
            r == (self@ == other@),
    {
        self.name_type == other.name_type && strings_eq(
            self.name_string.as_slice(),
            other.name_string.as_slice(),
        )
    }

    /// Same components, whatever the types.
    pub fn components_eq(&self, other: &PrincipalName) -> (r: bool)
        ensures
            r == (self@.components == other@.components),
    {
        strings_eq(self.name_string.as_slice(), other.name_string.as_slice())
    }

    /// The components with `/` between each two.
    pub fn components_joined(&self) -> (r: String)
        ensures
            r@ == self@.joined(),
    {
        join_strings(self.name_string.as_slice(), '/')
    }

    /// A ticket-granting service.
    pub fn is_krbtgt(&self) -> (r: bool)
        ensures
            r == self@.is_krbtgt(),
    {
        self.name_string.len() == 2 && is_text(&self.name_string[0], "krbtgt")
    }

    /// The ticket-granting service for `realm`.
    pub fn is_krbtgt_for(&self, realm: &str) -> (r: bool)
        ensures
            r == self@.is_krbtgt_for(realm@),
    {
        self.is_krbtgt() && is_text(&self.name_string[1], realm)
    }

    /// A ticket-granting service for a realm other than `realm`.
    pub fn is_cross_tgs_principal(&self, realm: &str) -> (r: bool)
        ensures
            r == self@.is_cross_tgs(realm@),
    {
        self.is_krbtgt() && !is_text(&self.name_string[1], realm)
    }

    /// The anonymous principal, by its components.
    pub fn is_anonymous(&self) -> (r: bool)
        ensures
            r == self@.is_anonymous(),
    {
        self.name_string.len() == 2 && is_text(&self.name_string[0], "WELLKNOWN") && is_text(
            &self.name_string[1],
            "ANONYMOUS",
        )
    }
}

/// The octets of texts, one after the other.
pub open spec fn octets_of(parts: Seq<Seq<char>>) -> Seq<u8>
    decreases parts.len(),
{
    if parts.len() == 0 {
        Seq::empty()
    } else {
        octets_of(parts.drop_last()) + encode_utf8(parts.last())
    }
}

impl NameView {
    /// The salt of a key made out of a password: the realm and the
    /// components, one after the other.
    pub open spec fn salt(self, realm: Seq<char>) -> Seq<u8> {
        encode_utf8(realm) + octets_of(self.components)
    }
}

/// Every component is ASCII.
pub open spec fn ascii_parts(parts: Seq<Seq<char>>) -> bool {
    forall|i: int| 0 <= i < parts.len() ==> all_ascii(#[trigger] parts[i])
}

impl PrincipalName {
    /// The salt of a key made out of a password.
    pub fn default_salt(&self, realm: &str) -> (r: Vec<u8>)
        ensures
            r@ == self@.salt(realm@),
    {
        let mut out: Vec<u8> = Vec::new();
        append(&mut out, realm.as_bytes());
        let ghost all = views(self.name_string@);
        let mut i: usize = 0;
        proof {
            assert(all.take(0) =~= Seq::<Seq<char>>::empty());
            assert(out@ =~= encode_utf8(realm@) + octets_of(all.take(0)));
        }
        while i < self.name_string.len()
            invariant
                i <= self.name_string@.len(),
                all == views(self.name_string@),
                out@ == encode_utf8(realm@) + octets_of(all.take(i as int)),
            decreases self.name_string@.len() - i,
        {
            append(&mut out, self.name_string[i].as_str().as_bytes());
            proof {
                assert(all.take(i + 1).drop_last() =~= all.take(i as int));
                assert(all.take(i + 1).last() == all[i as int]);
                assert(out@ =~= encode_utf8(realm@) + octets_of(all.take(i + 1)));
            }
            i = i + 1;
        }
        proof {
            assert(all.take(all.len() as int) =~= all);
        }
        out
    }

    /// A name of a type and components, which are ASCII.
    pub fn try_new(name_type: i32, parts: Vec<String>) -> (r: Option<PrincipalName>)
        ensures
            match r {
                Some(n) => ascii_parts(views(parts@)) && n@ == (NameView {
                    name_type,
                    components: views(parts@),
                }),
                None => !ascii_parts(views(parts@)),
            },
    {
        let ghost all = views(parts@);
        let mut i: usize = 0;
        while i < parts.len()
            invariant
                i <= parts@.len(),
                all == views(parts@),
                forall|k: int| 0 <= k < i ==> all_ascii(#[trigger] all[k]),
            decreases parts@.len() - i,
        {
            proof {
                assert(all[i as int] == parts@[i as int]@);
            }
            if !is_ascii_text(parts[i].as_str()) {
                return None;
            }
            i = i + 1;
        }
        Some(PrincipalName { name_type, name_string: parts })
    }
}

/// The store id of `name` in `realm`.
///
/// A name of type NT-ENTERPRISE is `user@suffix`; where the suffix is the
/// realm itself, octet for octet, and the user is not empty, it is a local
/// alias and the suffix is not repeated.
pub open spec fn spec_lookup_principal_id(name: NameView, realm: Seq<char>) -> Seq<char> {
    let raw = name.joined();
    let at = last_position(raw, '@');
    if name.name_type == NT_ENTERPRISE && at > 0 && raw.skip(at + 1) == realm {
        raw.take(at).push('@') + realm
    } else {
        raw.push('@') + realm
    }
}

/// Maps a wire name to a `user@REALM` store id.
pub fn lookup_principal_id(name: &PrincipalName, realm: &str) -> (r: String)
    ensures
        r@ == spec_lookup_principal_id(name@, realm@),
{
    let raw = name.components_joined();
    let mut out = raw.clone();
    if name.name_type == NT_ENTERPRISE {
        let cs = crate::text::chars_of(raw.as_str());
        if let Some(at) = last_position_of(cs.as_slice(), '@') {
            let suffix = range_string(cs.as_slice(), at + 1, cs.len());
            proof {
                assert(suffix@ == raw@.skip(at + 1));
            }
            if at > 0 && crate::text::str_eq(suffix.as_str(), realm) {
                out = range_string(cs.as_slice(), 0, at);
                proof {
                    assert(out@ == raw@.take(at as int));
                }
            }
        }
    }
    out.push('@');
    out.append(realm);
    out
}

/// The ticket-granting service of a realm is the one for that realm and for no
/// other; a ticket-granting service is that of a realm or one for another.
pub proof fn law_each_realm_has_its_service(realm: Seq<char>, other: Seq<char>, n: NameView)
    ensures
        krbtgt_view(realm).is_krbtgt(),
        krbtgt_view(realm).is_krbtgt_for(other) <==> realm == other,
        krbtgt_view(realm).is_cross_tgs(other) <==> realm != other,
        n.is_krbtgt() <==> (n.is_krbtgt_for(realm) || n.is_cross_tgs(realm)),
        !(n.is_krbtgt_for(realm) && n.is_cross_tgs(realm)),
{
}

/// The anonymous principal is anonymous, and no ticket-granting service is.
pub proof fn law_service_is_not_anonymous(n: NameView)
    requires
        n.is_krbtgt(),
    ensures
        anonymous_view().is_anonymous(),
        !n.is_anonymous(),
{
    reveal_strlit("krbtgt");
    reveal_strlit("WELLKNOWN");
    assert(n.components[0].len() == 6);
    if n.is_anonymous() {
        assert(n.components[0] == "WELLKNOWN"@);
    }
}

/// A name that is no enterprise name is looked up under itself and the realm.
pub proof fn law_ordinary_name_is_looked_up(n: NameView, realm: Seq<char>)
    requires
        n.name_type != 10,
    ensures
        spec_lookup_principal_id(n, realm) == n.joined().push('@') + realm,
{
}

/// An enterprise name whose suffix is the realm is looked up under its user, and
/// one with another suffix under all of it.
pub proof fn law_enterprise_suffix_is_not_repeated(
    user: Seq<char>,
    suffix: Seq<char>,
    realm: Seq<char>,
)
    requires
        user.len() > 0,
        !suffix.contains('@'),
    ensures
        ({
            let n = NameView { name_type: 10, components: seq![user.push('@') + suffix] };
            spec_lookup_principal_id(n, realm) == if suffix == realm {
                user.push('@') + realm
            } else {
                (user.push('@') + suffix).push('@') + realm
            }
        }),
{
    let n = NameView { name_type: 10, components: seq![user.push('@') + suffix] };
    let raw = n.joined();
    assert(raw == user.push('@') + suffix);
    lemma_last_position(raw, '@');
    let at = last_position(raw, '@');
    assert(raw[user.len() as int] == '@');
    if at > user.len() {
        assert(suffix[at - user.len() - 1] == raw[at]);
        assert(suffix.contains('@'));
    }
    assert(at == user.len());
    assert(raw.skip(at + 1) =~= suffix);
    assert(raw.take(at) =~= user);
}

/// A component is added to the end of the salt.
pub proof fn law_salt_is_realm_and_components(n: NameView, realm: Seq<char>, c: Seq<char>)
    ensures
        (NameView { components: n.components.push(c), ..n }).salt(realm) == n.salt(realm)
            + encode_utf8(c),
        (NameView { components: Seq::empty(), ..n }).salt(realm) == encode_utf8(realm),
{
    assert(n.components.push(c).drop_last() =~= n.components);
    assert((encode_utf8(realm) + octets_of(n.components)) + encode_utf8(c) =~= encode_utf8(realm)
        + (octets_of(n.components) + encode_utf8(c)));
    assert(encode_utf8(realm) + Seq::<u8>::empty() =~= encode_utf8(realm));
}

} // verus!
