//! What a realm starts with: its administrator, its host, its access list and
//! the attributes of its administration services.

use crate::acl::pattern::{bad_name, pattern_of};
use crate::acl::{Acl, AdminOp};
use crate::error::Error;
use crate::kdb::{entry_with, last_with, MemoryStore, PrincipalRead};
use crate::name::{NameView, PrincipalName, NT_SRV_HST};
use crate::num::{decimal, push_decimal};
use crate::store::{
    Policy, Principal, KDB_DISALLOW_ALL_TIX, KDB_DISALLOW_TGT_BASED, KDB_LOCKDOWN_KEYS,
    KDB_PWCHANGE_SERVICE, KDB_REQUIRES_PRE_AUTH,
};
use crate::text::{chars_of, concat};
use vstd::prelude::*;
use vstd::string::*;

verus! {

/// Longest ticket life of `kadmin/admin`: three hours.
pub const KADM5_ADMIN_LIFETIME: u64 = 10_800;

/// Longest ticket life of `kadmin/changepw`: five minutes.
pub const KADM5_CHANGEPW_LIFETIME: u64 = 300;

/// The administrator of a realm where no access list is configured.
pub fn admin_id_for_realm(realm: &str) -> (r: String)
    ensures
        r@ == "admin@"@ + realm@,
{
    concat("admin@", realm)
}

/// Who creates the administration services of a realm.
pub fn kdb5_util_id_for_realm(realm: &str) -> (r: String)
    ensures
        r@ == "kdb5_util@"@ + realm@,
{
    concat("kdb5_util@", realm)
}

/// A character in lower case, where it is an ASCII letter.
pub open spec fn lower(c: char) -> char {
    if 'A' <= c && c <= 'Z' {
        ((c as u8) + 32) as char
    } else {
        c
    }
}

/// Text with its ASCII letters in lower case.
pub open spec fn lower_text(s: Seq<char>) -> Seq<char> {
    s.map_values(|c: char| lower(c))
}

/// A character in lower case, where it is an ASCII letter.
fn lower_of(c: char) -> (r: char)
    ensures
        r == lower(c),
{
    if 'A' <= c && c <= 'Z' {
        ((c as u8) + 32) as char
    } else {
        c
    }
}

/// Text with its ASCII letters in lower case.
fn lower_string(s: &str) -> (r: String)
    ensures
        r@ == lower_text(s@),
{
    let cs = chars_of(s);
    let mut out = concat("", "");
    proof {
        reveal_strlit("");
    }
    let n: usize = cs.len();
    let mut i: usize = 0;
    proof {
        assert(out@ =~= lower_text(s@).take(0));
    }
    while i < n
        invariant
            i <= n,
            n == cs@.len(),
            cs@ == s@,
            out@ == lower_text(s@).take(i as int),
        decreases n - i,
    {
        out.push(lower_of(cs[i]));
        proof {
            assert(lower_text(s@).take(i + 1) =~= lower_text(s@).take(i as int).push(
                lower(s@[i as int]),
            ));
        }
        i = i + 1;
    }
    proof {
        assert(lower_text(s@).take(n as int) =~= lower_text(s@));
    }
    out
}

/// The host service of a realm.
pub open spec fn host_view(realm: Seq<char>) -> NameView {
    NameView {
        name_type: NT_SRV_HST,
        components: seq!["host"@, "testhost."@ + lower_text(realm)],
    }
}

/// The host service of a realm: `host/testhost.` and the realm as a domain.
pub fn host_for_realm(realm: &str) -> (r: PrincipalName)
    ensures
        r@ == host_view(realm@),
{
    let dns = lower_string(realm);
    let mut parts: Vec<String> = Vec::new();
    parts.push("host".to_owned());
    parts.push(concat("testhost.", dns.as_str()));
    let r = PrincipalName { name_type: NT_SRV_HST, name_string: parts };
    proof {
        assert(r@.components =~= host_view(realm@).components);
    }
    r
}

/// The access list file in a directory.
pub open spec fn acl_path_in(dir: Seq<char>) -> Seq<char> {
    if dir.len() == 0 {
        "kadm5.acl"@
    } else if dir.last() == '/' {
        dir + "kadm5.acl"@
    } else {
        dir.push('/') + "kadm5.acl"@
    }
}

/// The access list file in a directory.
pub fn default_acl_path(kdc_dir: &str) -> (r: String)
    ensures
        r@ == acl_path_in(kdc_dir@),
{
    let cs = chars_of(kdc_dir);
    let n: usize = cs.len();
    if n == 0 {
        return "kadm5.acl".to_owned();
    }
    let mut out = kdc_dir.to_owned();
    if cs[n - 1] != '/' {
        out.push('/');
    }
    out.append("kadm5.acl");
    out
}

/// What is said of an access list that cannot be opened.
pub fn acl_open_error(path: &str, why: &str) -> (r: Error)
    ensures
        r matches Error::AclParse(t) && t@ == "Cannot open "@ + path@ + ": "@ + why@
            + " while initializing ACL file, aborting"@,
{
    let mut out = concat("Cannot open ", path);
    out.append(": ");
    out.append(why);
    out.append(" while initializing ACL file, aborting");
    Error::AclParse(out)
}

/// The first ten characters of a line.
pub open spec fn snippet(line: Seq<char>) -> Seq<char> {
    if line.len() > 10 {
        line.take(10)
    } else {
        line
    }
}

/// What is said of an access list with a line that does not load.
pub fn acl_syntax_error(message: &str, path: &str, lineno: u64, line: &str) -> (r: Error)
    ensures
        r matches Error::AclParse(t) && t@ == message@ + "\n"@ + path@
            + ": syntax error at line "@ + decimal(lineno as nat) + " <"@ + snippet(line@)
            + "...> while initializing ACL file, aborting"@,
{
    let mut out = concat(message, "\n");
    out.append(path);
    out.append(": syntax error at line ");
    push_decimal(&mut out, lineno);
    out.append(" <");
    let cs = chars_of(line);
    let n: usize = if cs.len() > 10 {
        10
    } else {
        cs.len()
    };
    let ghost head = out@;
    let mut i: usize = 0;
    proof {
        assert(head + line@.take(0) =~= head);
    }
    while i < n
        invariant
            i <= n <= cs@.len(),
            cs@ == line@,
            out@ == head + line@.take(i as int),
        decreases n - i,
    {
        out.push(cs[i]);
        proof {
            assert(head + line@.take(i + 1) =~= (head + line@.take(i as int)).push(
                line@[i as int],
            ));
        }
        i = i + 1;
    }
    proof {
        assert(line@.take(n as int) =~= snippet(line@));
    }
    out.append("...> while initializing ACL file, aborting");
    Error::AclParse(out)
}

/// An entry with other attributes and another longest life. What the
/// attributes say of pre-authentication and of the lock holds of the entry.
pub open spec fn as_service(p: Principal, attributes: u32, life: u64) -> Principal {
    Principal {
        attributes,
        max_life: life,
        requires_preauth: attributes & KDB_REQUIRES_PRE_AUTH != 0,
        locked: attributes & KDB_DISALLOW_ALL_TIX != 0,
        ..p
    }
}

/// The attributes of `kadmin/admin`.
pub open spec fn admin_attributes() -> u32 {
    KDB_DISALLOW_TGT_BASED | KDB_LOCKDOWN_KEYS
}

/// The attributes of `kadmin/changepw`.
pub open spec fn changepw_attributes() -> u32 {
    KDB_DISALLOW_TGT_BASED | KDB_PWCHANGE_SERVICE | KDB_LOCKDOWN_KEYS
}

/// Gives one entry its attributes and longest life.
fn set_service(store: &mut MemoryStore, id: &str, attributes: u32, life: u64) -> (r: Result<
    (),
    Error,
>)
    ensures
        match entry_with(old(store).principals(), id@) {
            Some(p) => r is Ok && entry_with(final(store).principals(), id@) == Some(
                as_service(p, attributes, life),
            ),
            None => r == Err::<(), Error>(Error::NotFound) && final(store).principals() == old(
                store,
            ).principals(),
        },
        forall|x: Seq<char>|
            x != id@ ==> #[trigger] entry_with(final(store).principals(), x) == entry_with(
                old(store).principals(),
                x,
            ),
        final(store).attempts() == old(store).attempts(),
        final(store).realm_view() == old(store).realm_view(),
        final(store).policy_view() == old(store).policy_view(),
        final(store).named_policies() == old(store).named_policies(),
{
    match store.take_id(id) {
        None => Err(Error::NotFound),
        Some(p) => {
            let mut q = p;
            q.attributes = attributes;
            q.max_life = life;
            q.requires_preauth = attributes & KDB_REQUIRES_PRE_AUTH != 0;
            q.locked = attributes & KDB_DISALLOW_ALL_TIX != 0;
            store.put_principal(q);
            Ok(())
        },
    }
}

/// What the entry `id` is once the administration services of a realm have
/// their attributes.
pub open spec fn with_services(
    before: Option<Principal>,
    id: Seq<char>,
    realm: Seq<char>,
) -> Option<Principal> {
    match before {
        None => None,
        Some(p) => if id == "kadmin/admin@"@ + realm {
            Some(as_service(p, admin_attributes(), KADM5_ADMIN_LIFETIME))
        } else if id == "kadmin/changepw@"@ + realm {
            Some(as_service(p, changepw_attributes(), KADM5_CHANGEPW_LIFETIME))
        } else {
            Some(p)
        },
    }
}

/// Gives the administration services of a realm their attributes and longest
/// lives: neither is got with a ticket-granting ticket, and the keys of both
/// are locked down. Where `kadmin/admin` is not there nothing changes; where
/// only `kadmin/changepw` is not there the other has its attributes.
pub fn apply_kadm5_create_service_attrs(store: &mut MemoryStore) -> (r: Result<(), Error>)
    ensures
        ({
            let before = old(store).principals();
            let after = final(store).principals();
            let realm = old(store).realm_view();
            let admin = entry_with(before, "kadmin/admin@"@ + realm);
            let changepw = entry_with(before, "kadmin/changepw@"@ + realm);
            &&& r is Ok <==> admin is Some && changepw is Some
            &&& r matches Err(e) ==> e == Error::NotFound
            &&& admin is None ==> after == before
            &&& admin is Some ==> forall|id: Seq<char>| #[trigger]
                entry_with(after, id) == with_services(entry_with(before, id), id, realm)
        }),
        final(store).attempts() == old(store).attempts(),
        final(store).realm_view() == old(store).realm_view(),
        final(store).policy_view() == old(store).policy_view(),
        final(store).named_policies() == old(store).named_policies(),
{
    let admin = concat("kadmin/admin@", store.realm());
    let changepw = concat("kadmin/changepw@", store.realm());
    proof {
        reveal_strlit("kadmin/admin@");
        reveal_strlit("kadmin/changepw@");
        assert(admin@[7] == 'a');
        assert(changepw@[7] == 'c');
    }
    match set_service(
        store,
        admin.as_str(),
        KDB_DISALLOW_TGT_BASED | KDB_LOCKDOWN_KEYS,
        KADM5_ADMIN_LIFETIME,
    ) {
        Err(e) => Err(e),
        Ok(_) => set_service(
            store,
            changepw.as_str(),
            KDB_DISALLOW_TGT_BASED | KDB_PWCHANGE_SERVICE | KDB_LOCKDOWN_KEYS,
            KADM5_CHANGEPW_LIFETIME,
        ),
    }
}

/// The database and the access list that a realm starts with, from the entries
/// of its principals: the administrator may do everything, and the
/// administration services have their attributes.
pub fn bootstrap_realm(realm: String, policy: Policy, entries: Vec<Principal>) -> (r: Result<
    (MemoryStore, Acl),
    Error,
>)
    ensures
        ({
            let admin = "admin@"@ + realm@;
            let services = last_with(entries@, "kadmin/admin@"@ + realm@) is Some && last_with(
                entries@,
                "kadmin/changepw@"@ + realm@,
            ) is Some;
            match r {
                Ok((store, acl)) => {
                    &&& services
                    &&& pattern_of(admin, Seq::empty()) is Some
                    &&& store.realm_view() == realm@
                    &&& store.policy_view() == policy
                    &&& forall|id: Seq<char>| #[trigger]
                        entry_with(store.principals(), id) == with_services(
                            last_with(entries@, id),
                            id,
                            realm@,
                        )
                    &&& acl.entries@.len() == 1
                    &&& acl.entries@[0].principal@ == admin
                    &&& forall|op: AdminOp| #[trigger] acl.entries@[0].grants(op)
                },
                Err(Error::AclParse(t)) => pattern_of(admin, Seq::empty()) is None && t@
                    == bad_name(admin),
                Err(e) => e == Error::NotFound && pattern_of(admin, Seq::empty()) is Some
                    && !services,
            }
        }),
{
    let actor = admin_id_for_realm(realm.as_str());
    let acl = match Acl::allow_admin(actor.as_str()) {
        Err(e) => {
            return Err(e);
        },
        Ok(a) => a,
    };
    let mut store = MemoryStore::from_principals(realm, policy, entries);
    match apply_kadm5_create_service_attrs(&mut store) {
        Err(e) => Err(e),
        Ok(_) => Ok((store, acl)),
    }
}

/// Giving the administration services their attributes twice changes nothing
/// more.
pub proof fn law_services_are_settled(p: Option<Principal>, id: Seq<char>, realm: Seq<char>)
    ensures
        with_services(with_services(p, id, realm), id, realm) == with_services(p, id, realm),
{
}

/// The two administration services get their attributes and lives, whatever they
/// had: neither takes tickets got with a TGT, both keep their keys, and only the
/// second changes passwords. No other entry changes, and none is made.
pub proof fn law_services_get_their_attributes(p: Principal, id: Seq<char>, realm: Seq<char>)
    ensures
        with_services(None, id, realm) is None,
        id == "kadmin/admin@"@ + realm ==> (with_services(Some(p), id, realm) matches Some(q)
            && q.attributes & KDB_DISALLOW_TGT_BASED != 0 && q.attributes & KDB_LOCKDOWN_KEYS != 0
            && q.attributes & KDB_PWCHANGE_SERVICE == 0 && q.max_life == 10800 && q.keys == p.keys
            && q.name == p.name && !q.requires_preauth && !q.locked),
        id != "kadmin/admin@"@ + realm && id == "kadmin/changepw@"@ + realm ==> (with_services(
            Some(p),
            id,
            realm,
        ) matches Some(q) && q.attributes & KDB_DISALLOW_TGT_BASED != 0 && q.attributes
            & KDB_LOCKDOWN_KEYS != 0 && q.attributes & KDB_PWCHANGE_SERVICE != 0 && q.max_life
            == 300 && q.keys == p.keys && q.name == p.name && !q.requires_preauth && !q.locked),
        id != "kadmin/admin@"@ + realm && id != "kadmin/changepw@"@ + realm ==> with_services(
            Some(p),
            id,
            realm,
        ) == Some(p),
{
    assert({
        &&& (0x4u32 | 0x80_0000u32) & 0x4 != 0
        &&& (0x4u32 | 0x80_0000u32) & 0x80_0000 != 0
        &&& (0x4u32 | 0x80_0000u32) & 0x2000 == 0
        &&& (0x4u32 | 0x80_0000u32) & 0x80 == 0
        &&& (0x4u32 | 0x80_0000u32) & 0x40 == 0
        &&& (0x4u32 | 0x2000u32 | 0x80_0000u32) & 0x4 != 0
        &&& (0x4u32 | 0x2000u32 | 0x80_0000u32) & 0x80_0000 != 0
        &&& (0x4u32 | 0x2000u32 | 0x80_0000u32) & 0x2000 != 0
        &&& (0x4u32 | 0x2000u32 | 0x80_0000u32) & 0x80 == 0
        &&& (0x4u32 | 0x2000u32 | 0x80_0000u32) & 0x40 == 0
    }) by (bit_vector);
}

/// The access list stands in its directory, with one slash between the two.
pub proof fn law_access_list_is_in_its_directory(dir: Seq<char>)
    ensures
        acl_path_in(Seq::empty()) == "kadm5.acl"@,
        dir.len() > 0 && dir.last() != '/' ==> acl_path_in(dir) == dir + seq!['/']
            + "kadm5.acl"@,
        acl_path_in(dir.push('/')) == dir + seq!['/'] + "kadm5.acl"@,
{
    assert(dir.push('/') =~= dir + seq!['/']);
    assert(dir.push('/').last() == '/');
}

/// The host of a realm is a host service named after the realm in small letters.
pub proof fn law_host_is_named_after_the_realm(realm: Seq<char>)
    ensures
        host_view(realm).components.len() == 2,
        host_view(realm).components[0] == "host"@,
        host_view(realm).components[1] == "testhost."@ + lower_text(realm),
        host_view(realm).name_type == 3,
{
}

/// An error shows the front of its line, all of it where it is short.
pub proof fn law_snippet_is_the_front(line: Seq<char>)
    ensures
        snippet(line).len() <= 10,
        line.len() <= 10 ==> snippet(line) == line,
        line.len() > 10 ==> snippet(line).len() == 10,
        snippet(line) == line.take(snippet(line).len() as int),
{
    assert(line.take(line.len() as int) =~= line);
}

} // verus!
