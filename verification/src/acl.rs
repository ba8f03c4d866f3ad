//! Who may do what to whom: an access list for administrators.

pub mod parse;
pub mod pattern;
pub mod restrict;

use crate::acl::parse::{
    fields, granted_by, is_word, law_fields_of_a_line, law_first_line_is_read,
    law_last_letter_decides, letters, logical_lines, parse_line, spec_lines, spec_parse_line,
    EntryView, Ops,
};
use crate::acl::pattern::{
    is_star, law_exact_pattern, match_client, match_target, parse_princ_pat, pattern_of,
    spec_match_client, spec_match_target, wildcards, PatView, PrincPat,
};
use crate::error::Error;
use crate::store::{attr_set, Principal, KDB_DISALLOW_ALL_TIX, KDB_REQUIRES_PRE_AUTH};
use crate::text::{
    last_position, lemma_last_position, lemma_position, lemma_split_step, position, split, str_eq,
};
use vstd::prelude::*;
use vstd::string::*;

verus! {

/// Operations that the list governs.
#[derive(Clone, Copy, Debug, PartialEq, Eq, Structural)]
pub enum AdminOp {
    /// Add a principal.
    Create,
    /// Delete a principal.
    Delete,
    /// Export a keytab.
    Ktadd,
    /// Change a password.
    ChangePassword,
    /// Inquire.
    Inquire,
    /// Extract keys. Not implied by `*` and `x`.
    Extract,
    /// Modify attributes.
    Modify,
    /// Set keys.
    SetKey,
    /// List principals and policies.
    List,
    /// Propagate the database.
    Propagate,
}

/// The word for an operation in the log.
pub open spec fn spec_op_name(op: AdminOp) -> Seq<char> {
    match op {
        AdminOp::Create => "create"@,
        AdminOp::Delete => "delete"@,
        AdminOp::Ktadd => "ktadd"@,
        AdminOp::ChangePassword => "cpw"@,
        AdminOp::Inquire => "inquire"@,
        AdminOp::Extract => "extract"@,
        AdminOp::Modify => "modify"@,
        AdminOp::SetKey => "setkey"@,
        AdminOp::List => "list"@,
        AdminOp::Propagate => "propagate"@,
    }
}

/// The word for an operation in the log.
pub fn op_name(op: AdminOp) -> (r: &'static str)
    ensures
        r@ == spec_op_name(op),
{
    match op {
        AdminOp::Create => "create",
        AdminOp::Delete => "delete",
        AdminOp::Ktadd => "ktadd",
        AdminOp::ChangePassword => "cpw",
        AdminOp::Inquire => "inquire",
        AdminOp::Extract => "extract",
        AdminOp::Modify => "modify",
        AdminOp::SetKey => "setkey",
        AdminOp::List => "list",
        AdminOp::Propagate => "propagate",
    }
}

/// What an entry imposes on what is created or modified under it.
#[derive(Clone, Debug, PartialEq, Eq)]
pub struct Restrictions {
    /// The password policy is removed.
    pub clear_policy: bool,
    /// The password policy is set.
    pub policy: Option<String>,
    /// Longest ticket life in seconds.
    pub max_life: Option<u64>,
    /// Longest renewable life in seconds.
    pub max_renewable_life: Option<u64>,
    /// Longest time to expiry in seconds.
    pub expire: Option<u64>,
    /// Longest time to password expiry in seconds.
    pub pwexpire: Option<u64>,
    /// Attributes that are set.
    pub require_attrs: u32,
    /// Attributes that may stay.
    pub forbid_attrs: u32,
}

impl Default for Restrictions {
    fn default() -> (r: Restrictions)
        ensures
            !r.clear_policy,
            r.policy is None,
            r.max_life is None,
            r.max_renewable_life is None,
            r.expire is None,
            r.pwexpire is None,
            r.require_attrs == 0,
            r.forbid_attrs == u32::MAX,
    {
        Restrictions {
            clear_policy: false,
            policy: None,
            max_life: None,
            max_renewable_life: None,
            expire: None,
            pwexpire: None,
            require_attrs: 0,
            forbid_attrs: u32::MAX,
        }
    }
}

/// A limit where 0 means that there is none, and none greater than `cap`.
pub open spec fn capped64(v: u64, cap: Option<u64>) -> u64 {
    match cap {
        Some(d) => if v == 0 || v > d {
            d
        } else {
            v
        },
        None => v,
    }
}

/// A time where 0 means never, and none later than `d` seconds from `now`.
pub open spec fn capped_time(v: u32, d: Option<u64>, now: u32) -> u32 {
    match d {
        Some(s) => {
            let delta = if s <= u32::MAX {
                s as u32
            } else {
                u32::MAX
            };
            let cap = now.saturating_add(delta);
            if v == 0 || v > cap {
                cap
            } else {
                v
            }
        },
        None => v,
    }
}

/// Caps a time.
fn cap_time(v: u32, d: Option<u64>, now: u32) -> (r: u32)
    ensures
        r == capped_time(v, d, now),
{
    match d {
        Some(s) => {
            let delta: u32 = if s <= 0xffff_ffff {
                s as u32
            } else {
                u32::MAX
            };
            let cap: u32 = now.saturating_add(delta);
            if v == 0 || v > cap {
                cap
            } else {
                v
            }
        },
        None => v,
    }
}

/// Caps a limit.
fn cap64(v: u64, cap: Option<u64>) -> (r: u64)
    ensures
        r == capped64(v, cap),
{
    match cap {
        Some(d) => if v == 0 || v > d {
            d
        } else {
            v
        },
        None => v,
    }
}

impl Restrictions {
    /// The attributes that an entry is left with.
    pub open spec fn attributes(&self, before: u32) -> u32 {
        (before | self.require_attrs) & self.forbid_attrs
    }

    /// Imposes the restrictions on an entry.
    pub fn apply_to(&self, p: &mut Principal, now: u32)
        ensures
            ({
                let a = self.attributes(old(p).attributes);
                *final(p) == (Principal {
                    attributes: a,
                    pw_policy: final(p).pw_policy,
                    max_life: capped64(old(p).max_life, self.max_life),
                    max_renewable_life: capped64(
                        old(p).max_renewable_life,
                        self.max_renewable_life,
                    ),
                    expiration: capped_time(old(p).expiration, self.expire, now),
                    pw_expire: capped_time(old(p).pw_expire, self.pwexpire, now),
                    requires_preauth: attr_set(a, KDB_REQUIRES_PRE_AUTH),
                    locked: attr_set(a, KDB_DISALLOW_ALL_TIX),
                    ..*old(p)
                })
            }),
            if self.clear_policy {
                final(p).pw_policy is None
            } else {
                match self.policy {
                    Some(n) => final(p).pw_policy matches Some(m) && m@ == n@,
                    None => final(p).pw_policy == old(p).pw_policy,
                }
            },
    {
        p.attributes = (p.attributes | self.require_attrs) & self.forbid_attrs;
        if self.clear_policy {
            p.pw_policy = None;
        } else {
            match &self.policy {
                Some(pol) => {
                    p.pw_policy = Some(pol.clone());
                },
                None => {},
            }
        }
        p.max_life = cap64(p.max_life, self.max_life);
        p.max_renewable_life = cap64(p.max_renewable_life, self.max_renewable_life);
        p.expiration = cap_time(p.expiration, self.expire, now);
        p.pw_expire = cap_time(p.pw_expire, self.pwexpire, now);
        p.requires_preauth = p.attributes & KDB_REQUIRES_PRE_AUTH != 0;
        p.locked = p.attributes & KDB_DISALLOW_ALL_TIX != 0;
    }
}

/// Restrictions never give more: no limit is longer after them than before
/// or than they allow, and imposing them once more changes nothing.
pub proof fn law_restrictions_only_tighten(r: Restrictions, p: Principal, now: u32)
    ensures
        p.max_life != 0 ==> capped64(p.max_life, r.max_life) <= p.max_life,
        r.max_life matches Some(d) ==> capped64(p.max_life, r.max_life) <= d,
        p.expiration != 0 ==> capped_time(p.expiration, r.expire, now) <= p.expiration,
        capped64(capped64(p.max_life, r.max_life), r.max_life) == capped64(p.max_life, r.max_life),
        r.attributes(r.attributes(p.attributes)) == r.attributes(p.attributes),
{
    let a = p.attributes;
    let q = r.require_attrs;
    let f = r.forbid_attrs;
    assert(((((a | q) & f) | q) & f) == ((a | q) & f)) by (bit_vector);
}

/// One entry: a pattern for the administrator, what it may do, a pattern for
/// the target, and restrictions.
#[derive(Clone, Debug, PartialEq, Eq)]
pub struct AclEntry {
    /// The administrator's pattern as written.
    pub principal: String,
    /// May add.
    pub add: bool,
    /// May delete.
    pub delete: bool,
    /// May inquire.
    pub inquire: bool,
    /// May extract keys.
    pub extract: bool,
    /// May change passwords.
    pub changepw: bool,
    /// May modify.
    pub modify: bool,
    /// May set keys.
    pub setkey: bool,
    /// May list.
    pub list: bool,
    /// May propagate.
    pub propagate: bool,
    /// The administrator's pattern; none where any will do.
    pub client: Option<PrincPat>,
    /// The target's pattern; none where any will do.
    pub target: Option<PrincPat>,
    /// Restrictions.
    pub restrictions: Option<Restrictions>,
}

impl AclEntry {
    /// The entry lets the administrator do `op`.
    pub open spec fn grants(&self, op: AdminOp) -> bool {
        match op {
            AdminOp::Create => self.add,
            AdminOp::Delete => self.delete,
            AdminOp::Inquire => self.inquire,
            AdminOp::Ktadd => self.extract,
            AdminOp::Extract => self.extract,
            AdminOp::ChangePassword => self.changepw,
            AdminOp::Modify => self.modify,
            AdminOp::SetKey => self.setkey,
            AdminOp::List => self.list,
            AdminOp::Propagate => self.propagate,
        }
    }

    /// The entry is about this administrator.
    pub open spec fn is_about(&self, actor: PatView) -> bool {
        self.client matches Some(c) ==> spec_match_client(c@, actor)
    }

    /// The entry is about this administrator and this target. A pattern for
    /// the target needs a target that can be read; `*1` to `*9` in it stand
    /// for what the wildcards of the administrator's pattern matched.
    pub open spec fn covers(&self, actor: PatView, target: Option<PatView>) -> bool {
        &&& self.is_about(actor)
        &&& self.target matches Some(t) ==> (target matches Some(x) && spec_match_target(
            t@,
            x,
            match self.client {
                Some(c) => wildcards(c@, actor),
                None => Seq::empty(),
            },
        ))
    }
}

/// An ordered list of entries; the first that matches counts.
#[derive(Clone, Debug, PartialEq, Eq)]
pub struct Acl {
    /// The entries.
    pub entries: Vec<AclEntry>,
}

impl Default for Acl {
    fn default() -> (r: Acl)
        ensures
            r.entries@.len() == 0,
    {
        Acl { entries: Vec::new() }
    }
}

/// A pattern for an optional name, where it can be read.
pub open spec fn target_pattern(target: Option<&str>) -> Option<PatView> {
    match target {
        Some(t) => pattern_of(t@, Seq::empty()),
        None => None,
    }
}

/// `i` is the first entry that covers administrator and target.
pub open spec fn is_match(
    entries: Seq<AclEntry>,
    actor: Seq<char>,
    target: Option<&str>,
    i: int,
) -> bool {
    pattern_of(actor, Seq::empty()) matches Some(a) && {
        &&& 0 <= i < entries.len()
        &&& entries[i].covers(a, target_pattern(target))
        &&& forall|k: int|
            0 <= k < i ==> !(#[trigger] entries[k]).covers(a, target_pattern(target))
    }
}

/// No entry covers administrator and target.
pub open spec fn no_match(
    entries: Seq<AclEntry>,
    actor: Seq<char>,
    target: Option<&str>,
) -> bool {
    pattern_of(actor, Seq::empty()) matches Some(a) ==> forall|k: int|
        0 <= k < entries.len() ==> !(#[trigger] entries[k]).covers(a, target_pattern(target))
}

/// The administrator may do `op` to the target: the first entry that covers
/// both grants it.
pub open spec fn permitted(
    entries: Seq<AclEntry>,
    actor: Seq<char>,
    op: AdminOp,
    target: Option<&str>,
) -> bool {
    exists|i: int| #[trigger] is_match(entries, actor, target, i) && entries[i].grants(op)
}

/// What an entry grants, as a mask.
pub open spec fn grant_mask(e: AclEntry) -> u32 {
    let a: u32 = if e.inquire {
        0x01
    } else {
        0
    };
    let b: u32 = if e.add {
        0x02
    } else {
        0
    };
    let c: u32 = if e.modify {
        0x04
    } else {
        0
    };
    let d: u32 = if e.delete {
        0x08
    } else {
        0
    };
    let f: u32 = if e.list {
        0x10
    } else {
        0
    };
    let g: u32 = if e.changepw {
        0x20
    } else {
        0
    };
    let h: u32 = if e.extract {
        0x40
    } else {
        0
    };
    (a + b + c + d + f + g + h) as u32
}

/// `m` is what the first entry about the administrator grants, 0 where there
/// is none.
pub open spec fn is_privs(entries: Seq<AclEntry>, actor: Seq<char>, m: u32) -> bool {
    match pattern_of(actor, Seq::empty()) {
        None => m == 0,
        Some(a) => {
            ||| (m == 0 && forall|k: int|
                0 <= k < entries.len() ==> !(#[trigger] entries[k]).is_about(a))
            ||| exists|i: int|
                {
                    &&& 0 <= i < entries.len()
                    &&& (#[trigger] entries[i]).is_about(a)
                    &&& forall|k: int| 0 <= k < i ==> !(#[trigger] entries[k]).is_about(a)
                    &&& m == grant_mask(entries[i])
                }
        },
    }
}

impl Acl {
    /// The list that permits nothing.
    pub fn new() -> (r: Acl)
        ensures
            r.entries@.len() == 0,
    {
        Acl { entries: Vec::new() }
    }

    /// Reads a list.
    pub fn parse(text: &str) -> (r: Result<Acl, Error>)
        ensures
            parsed(text@, Seq::empty(), r),
    {
        let none = String::new();
        proof {
            assert(none@ =~= Seq::<char>::empty());
        }
        Acl::parse_with_realm(text, none.as_str())
    }

    /// Reads a list; names without a realm are in `default_realm`. The first
    /// line that cannot be read is a failure of the whole.
    pub fn parse_with_realm(text: &str, default_realm: &str) -> (r: Result<Acl, Error>)
        ensures
            parsed(text@, default_realm@, r),
    {
        let lines = logical_lines(text);
        let mut entries: Vec<AclEntry> = Vec::new();
        let mut i: usize = 0;
        while i < lines.len()
            invariant
                i <= lines.len(),
                lines@.len() == spec_lines(text@).len(),
                forall|k: int| 0 <= k < lines@.len() ==> (#[trigger] lines@[k])@ == spec_lines(
                    text@,
                )[k],
                entries@.len() == i,
                forall|k: int|
                    0 <= k < i ==> spec_parse_line(spec_lines(text@)[k], default_realm@)
                        == Ok::<EntryView, Seq<char>>((#[trigger] entries@[k])@),
            decreases lines.len() - i,
        {
            match parse_line(lines[i].as_slice(), default_realm) {
                Err(e) => {
                    proof {
                        let all = spec_lines(text@);
                        assert(lines@[i as int]@ == all[i as int]);
                        assert forall|j: int| 0 <= j < i implies spec_parse_line(
                            #[trigger] all[j],
                            default_realm@,
                        ) is Ok by {
                            assert(entries@[j]@ == entries@[j]@);
                        }
                        assert(spec_parse_line(all[i as int], default_realm@) is Err);
                    }
                    return Err(e);
                },
                Ok(entry) => {
                    proof {
                        assert(lines@[i as int]@ == spec_lines(text@)[i as int]);
                    }
                    entries.push(entry);
                },
            }
            i = i + 1;
        }
        Ok(Acl { entries })
    }

    /// The list that lets one administrator do everything.
    pub fn allow_admin(admin: &str) -> (r: Result<Acl, Error>)
        ensures
            match pattern_of(admin@, Seq::empty()) {
                Some(p) => r matches Ok(a) && a.entries@.len() == 1 && ({
                    let e = a.entries@[0];
                    &&& e.principal@ == admin@
                    &&& e.client matches Some(c) && c@ == p
                    &&& e.target is None
                    &&& e.restrictions is None
                    &&& forall|op: AdminOp| #[trigger] e.grants(op)
                }),
                None => r matches Err(Error::AclParse(t)) && t@ == crate::acl::pattern::bad_name(
                    admin@,
                ),
            },
    {
        let client = match parse_princ_pat(admin) {
            Err(e) => {
                return Err(e);
            },
            Ok(p) => p,
        };
        let entry = AclEntry {
            principal: admin.to_owned(),
            add: true,
            delete: true,
            inquire: true,
            extract: true,
            changepw: true,
            modify: true,
            setkey: true,
            list: true,
            propagate: true,
            client: Some(client),
            target: None,
            restrictions: None,
        };
        let mut entries: Vec<AclEntry> = Vec::new();
        entries.push(entry);
        Ok(Acl { entries })
    }

    /// The first entry that covers administrator and target.
    pub fn find(&self, actor: &str, target: Option<&str>) -> (r: Option<usize>)
        ensures
            match r {
                Some(i) => is_match(self.entries@, actor@, target, i as int),
                None => no_match(self.entries@, actor@, target),
            },
    {
        let a = match parse_princ_pat(actor) {
            Err(_) => {
                return None;
            },
            Ok(p) => p,
        };
        let t: Option<PrincPat> = match target {
            None => None,
            Some(s) => match parse_princ_pat(s) {
                Err(_) => None,
                Ok(p) => Some(p),
            },
        };
        let mut i: usize = 0;
        while i < self.entries.len()
            invariant
                i <= self.entries.len(),
                pattern_of(actor@, Seq::empty()) == Some(a@),
                match t {
                    Some(x) => target_pattern(target) == Some(x@),
                    None => target_pattern(target) is None,
                },
                forall|k: int|
                    0 <= k < i ==> !(#[trigger] self.entries@[k]).covers(
                        a@,
                        target_pattern(target),
                    ),
            decreases self.entries.len() - i,
        {
            if self.entry_covers(i, &a, &t) {
                return Some(i);
            }
            i = i + 1;
        }
        None
    }

    /// Whether entry `i` covers administrator and target.
    fn entry_covers(&self, i: usize, a: &PrincPat, t: &Option<PrincPat>) -> (r: bool)
        requires
            i < self.entries@.len(),
        ensures
            r == self.entries@[i as int].covers(
                a@,
                match *t {
                    Some(x) => Some(x@),
                    None => None,
                },
            ),
    {
        let e = &self.entries[i];
        let mut refs: Vec<String> = Vec::new();
        proof {
            assert(crate::text::views(refs@) =~= Seq::<Seq<char>>::empty());
        }
        match &e.client {
            Some(c) => match match_client(c, a) {
                None => {
                    return false;
                },
                Some(v) => {
                    refs = v;
                },
            },
            None => {},
        }
        match &e.target {
            None => true,
            Some(tp) => match t {
                None => false,
                Some(x) => match_target(tp, x, &refs),
            },
        }
    }

    /// Whether the administrator may do `op` to the target.
    pub fn check(&self, actor: &str, op: AdminOp, target: Option<&str>) -> (r: Result<(), Error>)
        ensures
            r == (if permitted(self.entries@, actor@, op, target) {
                Ok(())
            } else {
                Err(Error::AclDenied)
            }),
    {
        match self.find(actor, target) {
            None => Err(Error::AclDenied),
            Some(i) => {
                proof {
                    lemma_match_unique(self.entries@, actor@, target, i as int);
                }
                let e = &self.entries[i];
                let ok: bool = match op {
                    AdminOp::Create => e.add,
                    AdminOp::Delete => e.delete,
                    AdminOp::Inquire => e.inquire,
                    AdminOp::Ktadd => e.extract,
                    AdminOp::Extract => e.extract,
                    AdminOp::ChangePassword => e.changepw,
                    AdminOp::Modify => e.modify,
                    AdminOp::SetKey => e.setkey,
                    AdminOp::List => e.list,
                    AdminOp::Propagate => e.propagate,
                };
                if ok {
                    Ok(())
                } else {
                    Err(Error::AclDenied)
                }
            },
        }
    }

    /// Whether the administrator may rename: delete the old name, and add the
    /// new one without restrictions.
    pub fn check_rename(&self, actor: &str, src: &str, dest: &str) -> (r: Result<(), Error>)
        ensures
            r == (if permitted(self.entries@, actor@, AdminOp::Delete, Some(src)) && permitted(
                self.entries@,
                actor@,
                AdminOp::Create,
                Some(dest),
            ) && forall|i: int| #[trigger]
                is_match(self.entries@, actor@, Some(dest), i)
                    ==> self.entries@[i].restrictions is None {
                Ok(())
            } else {
                Err(Error::AclDenied)
            }),
    {
        match self.check(actor, AdminOp::Delete, Some(src)) {
            Err(e) => {
                return Err(e);
            },
            Ok(()) => {},
        }
        match self.check(actor, AdminOp::Create, Some(dest)) {
            Err(e) => {
                return Err(e);
            },
            Ok(()) => {},
        }
        match self.find(actor, Some(dest)) {
            Some(i) => {
                proof {
                    lemma_match_unique(self.entries@, actor@, Some(dest), i as int);
                }
                if self.entries[i].restrictions.is_some() {
                    return Err(Error::AclDenied);
                }
            },
            None => {},
        }
        Ok(())
    }

    /// The restrictions of the entry that covers administrator and target.
    pub fn restrictions(&self, actor: &str, target: Option<&str>) -> (r: Option<&Restrictions>)
        ensures
            match r {
                Some(x) => exists|i: int| #[trigger]
                    is_match(self.entries@, actor@, target, i) && self.entries@[i].restrictions
                        == Some(*x),
                None => forall|i: int| #[trigger]
                    is_match(self.entries@, actor@, target, i)
                        ==> self.entries@[i].restrictions is None,
            },
    {
        match self.find(actor, target) {
            None => None,
            Some(i) => {
                proof {
                    lemma_match_unique(self.entries@, actor@, target, i as int);
                }
                self.entries[i].restrictions.as_ref()
            },
        }
    }

    /// What the first entry about the administrator grants, as a mask.
    pub fn privs(&self, actor: &str) -> (r: u32)
        ensures
            is_privs(self.entries@, actor@, r),
    {
        let a = match parse_princ_pat(actor) {
            Err(_) => {
                return 0;
            },
            Ok(p) => p,
        };
        let mut i: usize = 0;
        while i < self.entries.len()
            invariant
                i <= self.entries.len(),
                pattern_of(actor@, Seq::empty()) == Some(a@),
                forall|k: int| 0 <= k < i ==> !(#[trigger] self.entries@[k]).is_about(a@),
            decreases self.entries.len() - i,
        {
            let e = &self.entries[i];
            let about: bool = match &e.client {
                None => true,
                Some(c) => match_client(c, &a).is_some(),
            };
            if about {
                proof {
                    assert(self.entries@[i as int].is_about(a@));
                }
                return granted_bits(e);
            }
            i = i + 1;
        }
        0
    }

    /// Whether a pattern matches a name.
    pub fn name_matches(pattern: &str, actor: &str) -> (r: bool)
        ensures
            r == (pattern@ == actor@ || (pattern_of(pattern@, Seq::empty()) matches Some(p)
                && pattern_of(actor@, Seq::empty()) matches Some(a) && spec_match_client(p, a))),
    {
        if str_eq(pattern, actor) {
            return true;
        }
        match (parse_princ_pat(pattern), parse_princ_pat(actor)) {
            (Ok(p), Ok(a)) => match_client(&p, &a).is_some(),
            _ => false,
        }
    }
}

/// What an entry grants, as a mask.
fn granted_bits(e: &AclEntry) -> (r: u32)
    ensures
        r == grant_mask(*e),
{
    let mut bits: u32 = 0;
    if e.inquire {
        bits = bits + 0x01;
    }
    if e.add {
        bits = bits + 0x02;
    }
    if e.modify {
        bits = bits + 0x04;
    }
    if e.delete {
        bits = bits + 0x08;
    }
    if e.list {
        bits = bits + 0x10;
    }
    if e.changepw {
        bits = bits + 0x20;
    }
    if e.extract {
        bits = bits + 0x40;
    }
    bits
}

/// At most one entry is the first that matches.
proof fn lemma_match_unique(
    entries: Seq<AclEntry>,
    actor: Seq<char>,
    target: Option<&str>,
    i: int,
)
    requires
        is_match(entries, actor, target, i),
    ensures
        forall|k: int| #[trigger] is_match(entries, actor, target, k) ==> k == i,
{
    assert forall|k: int| #[trigger] is_match(entries, actor, target, k) implies k == i by {
        let a = pattern_of(actor, Seq::empty())->0;
        if k < i {
            assert(!entries[k].covers(a, target_pattern(target)));
        }
        if i < k {
            assert(!entries[i].covers(a, target_pattern(target)));
        }
    }
}

/// What reading a list comes to: the entries of its lines in order, or the
/// failure of the first line that cannot be read.
pub open spec fn parsed(text: Seq<char>, realm: Seq<char>, r: Result<Acl, Error>) -> bool {
    let lines = spec_lines(text);
    match r {
        Ok(a) => a.entries@.len() == lines.len() && forall|k: int|
            0 <= k < lines.len() ==> spec_parse_line(lines[k], realm) == Ok::<EntryView, Seq<char>>(
                (#[trigger] a.entries@[k])@,
            ),
        Err(e) => exists|k: int|
            {
                &&& 0 <= k < lines.len()
                &&& spec_parse_line(#[trigger] lines[k], realm) matches Err(t) && (e
                    matches Error::AclParse(s) && s@ == t)
                &&& forall|j: int|
                    0 <= j < k ==> spec_parse_line(#[trigger] lines[j], realm) is Ok
            },
    }
}

/// An administrator that no entry is about may do nothing.
pub proof fn law_unlisted_is_denied(
    entries: Seq<AclEntry>,
    actor: Seq<char>,
    op: AdminOp,
    target: Option<&str>,
)
    requires
        no_match(entries, actor, target),
    ensures
        !permitted(entries, actor, op, target),
{
    if permitted(entries, actor, op, target) {
        let i = choose|i: int| #[trigger]
            is_match(entries, actor, target, i) && entries[i].grants(op);
        let a = pattern_of(actor, Seq::empty())->0;
        assert(!entries[i].covers(a, target_pattern(target)));
    }
}

/// Entries behind the first that matches change nothing.
pub proof fn law_first_match_decides(
    entries: Seq<AclEntry>,
    more: Seq<AclEntry>,
    actor: Seq<char>,
    op: AdminOp,
    target: Option<&str>,
    i: int,
)
    requires
        is_match(entries, actor, target, i),
    ensures
        permitted(entries + more, actor, op, target) == entries[i].grants(op),
{
    let all = entries + more;
    let a = pattern_of(actor, Seq::empty())->0;
    assert(all[i] == entries[i]);
    assert forall|k: int| 0 <= k < i implies !(#[trigger] all[k]).covers(
        a,
        target_pattern(target),
    ) by {
        assert(all[k] == entries[k]);
    }
    assert(is_match(all, actor, target, i));
    lemma_match_unique(all, actor, target, i);
}

/// Stated over the text of the list: an administrator whose first matching line
/// has only the letter of one operation (a add, d delete, m modify, c change
/// password, i inquire, l list, s set key, e extract, p propagate) is permitted
/// that operation and denied each operation of another letter.
pub proof fn law_letter_grants_its_operation(
    text: Seq<char>,
    realm: Seq<char>,
    acl: Acl,
    actor: Seq<char>,
    target: Option<&str>,
    i: int,
    c: char,
)
    requires
        parsed(text, realm, Ok(acl)),
        is_match(acl.entries@, actor, target, i),
        fields(spec_lines(text)[i]).1 == seq![c],
        "admcilsep"@.contains(c),
    ensures
        permitted(acl.entries@, actor, AdminOp::Create, target) <==> c == 'a',
        permitted(acl.entries@, actor, AdminOp::Delete, target) <==> c == 'd',
        permitted(acl.entries@, actor, AdminOp::Modify, target) <==> c == 'm',
        permitted(acl.entries@, actor, AdminOp::ChangePassword, target) <==> c == 'c',
        permitted(acl.entries@, actor, AdminOp::Inquire, target) <==> c == 'i',
        permitted(acl.entries@, actor, AdminOp::List, target) <==> c == 'l',
        permitted(acl.entries@, actor, AdminOp::SetKey, target) <==> c == 's',
        permitted(acl.entries@, actor, AdminOp::Extract, target) <==> c == 'e',
        permitted(acl.entries@, actor, AdminOp::Ktadd, target) <==> c == 'e',
        permitted(acl.entries@, actor, AdminOp::Propagate, target) <==> c == 'p',
{
    law_letters_of_the_line_decide(text, realm, acl, actor, target, i);
    let s = seq![c];
    assert(s[0] == c);
    reveal_strlit("admcilsep");
    let k = "admcilsep"@;
    let n = choose|n: int| 0 <= n < k.len() && k[n] == c;
    assert(0 <= n < 9);
}

/// Stated over the text of the list: what an administrator may do is what the
/// letters of its first matching line grant, the last one about an operation
/// deciding; `*` and `x` grant everything but the extraction of keys.
pub proof fn law_letters_of_the_line_decide(
    text: Seq<char>,
    realm: Seq<char>,
    acl: Acl,
    actor: Seq<char>,
    target: Option<&str>,
    i: int,
)
    requires
        parsed(text, realm, Ok(acl)),
        is_match(acl.entries@, actor, target, i),
    ensures
        ({
            let s = fields(spec_lines(text)[i]).1;
            let e = acl.entries@;
            &&& permitted(e, actor, AdminOp::Create, target) == granted_by(s, 'a', 'A', true)
            &&& permitted(e, actor, AdminOp::Delete, target) == granted_by(s, 'd', 'D', true)
            &&& permitted(e, actor, AdminOp::Modify, target) == granted_by(s, 'm', 'M', true)
            &&& permitted(e, actor, AdminOp::ChangePassword, target) == granted_by(
                s,
                'c',
                'C',
                true,
            )
            &&& permitted(e, actor, AdminOp::Inquire, target) == granted_by(s, 'i', 'I', true)
            &&& permitted(e, actor, AdminOp::List, target) == granted_by(s, 'l', 'L', true)
            &&& permitted(e, actor, AdminOp::SetKey, target) == granted_by(s, 's', 'S', true)
            &&& permitted(e, actor, AdminOp::Propagate, target) == granted_by(s, 'p', 'P', true)
            &&& permitted(e, actor, AdminOp::Extract, target) == granted_by(s, 'e', 'E', false)
            &&& permitted(e, actor, AdminOp::Ktadd, target) == granted_by(s, 'e', 'E', false)
        }),
{
    let e = acl.entries@[i];
    let line = spec_lines(text)[i];
    assert(spec_parse_line(line, realm) == Ok::<EntryView, Seq<char>>(e@));
    reveal(spec_parse_line);
    let s = fields(line).1;
    assert(letters(s) == Ok::<Ops, char>(e@.ops));
    law_last_letter_decides(s);
    lemma_match_unique(acl.entries@, actor, target, i);
    lemma_permitted_by(acl.entries@, actor, target, i);
}

/// What the first entry that matches grants is what is permitted.
proof fn lemma_permitted_by(entries: Seq<AclEntry>, actor: Seq<char>, target: Option<&str>, i: int)
    requires
        is_match(entries, actor, target, i),
    ensures
        forall|op: AdminOp| #[trigger]
            permitted(entries, actor, op, target) == entries[i].grants(op),
{
    lemma_match_unique(entries, actor, target, i);
}

/// Stated over the text alone: a list that starts with the line of a name and one
/// letter lets that name do the letter's operation to anyone, and no operation of
/// another letter, whatever the lines behind say.
pub proof fn law_first_line_grants(
    name: Seq<char>,
    c: char,
    rest: Seq<char>,
    acl: Acl,
    target: Option<&str>,
)
    requires
        is_word(name),
        name[0] != '#',
        pattern_of(name, Seq::empty()) is Some,
        "admcilsep"@.contains(c),
        parsed(name + seq![' ', c, '\n'] + rest, Seq::empty(), Ok(acl)),
    ensures
        permitted(acl.entries@, name, AdminOp::Create, target) <==> c == 'a',
        permitted(acl.entries@, name, AdminOp::Delete, target) <==> c == 'd',
        permitted(acl.entries@, name, AdminOp::Modify, target) <==> c == 'm',
        permitted(acl.entries@, name, AdminOp::ChangePassword, target) <==> c == 'c',
        permitted(acl.entries@, name, AdminOp::Inquire, target) <==> c == 'i',
        permitted(acl.entries@, name, AdminOp::List, target) <==> c == 'l',
        permitted(acl.entries@, name, AdminOp::SetKey, target) <==> c == 's',
        permitted(acl.entries@, name, AdminOp::Extract, target) <==> c == 'e',
        permitted(acl.entries@, name, AdminOp::Ktadd, target) <==> c == 'e',
        permitted(acl.entries@, name, AdminOp::Propagate, target) <==> c == 'p',
{
    let text = name + seq![' ', c, '\n'] + rest;
    let line = name + seq![' '] + seq![c];
    assert(text =~= line + seq!['\n'] + rest);
    reveal_strlit("admcilsep");
    let k = "admcilsep"@;
    let n = choose|n: int| 0 <= n < k.len() && k[n] == c;
    assert(0 <= n < 9);
    assert(is_word(seq![c]));
    if line.contains('\n') {
        let j = choose|j: int| 0 <= j < line.len() && line[j] == '\n';
        if j < name.len() {
            assert(name[j] == line[j]);
        }
    }
    assert(line[0] == name[0]);
    law_first_line_is_read(line, rest);
    law_fields_of_a_line(name, seq![c], seq![c], seq![c]);
    assert(spec_lines(text)[0] == line);
    let e = acl.entries@[0];
    assert(spec_parse_line(line, Seq::empty()) == Ok::<EntryView, Seq<char>>(e@));
    reveal(spec_parse_line);
    assert(e@.target is None);
    assert(e.target is None);
    let a = pattern_of(name, Seq::empty())->0;
    assert(e.is_about(a)) by {
        if e.client is Some {
            assert(e@.client == Some(a));
        }
    }
    assert(is_match(acl.entries@, name, target, 0));
    law_letter_grants_its_operation(text, Seq::empty(), acl, name, target, 0, c);
}

/// Stated over the text alone: a list that is one line for one name, without
/// wildcards, lets nobody else do anything.
pub proof fn law_only_line_is_for_its_name(
    name: Seq<char>,
    ops: Seq<char>,
    acl: Acl,
    actor: Seq<char>,
    op: AdminOp,
    target: Option<&str>,
)
    requires
        is_word(name),
        is_word(ops),
        ops.last() != '\\',
        name[0] != '#',
        !name.contains('*'),
        parsed(name + seq![' '] + ops, Seq::empty(), Ok(acl)),
        pattern_of(actor, Seq::empty()) != pattern_of(name, Seq::empty()),
    ensures
        !permitted(acl.entries@, actor, op, target),
{
    let line = name + seq![' '] + ops;
    if line.contains('\n') {
        let j = choose|j: int| 0 <= j < line.len() && line[j] == '\n';
        if j < name.len() {
            assert(name[j] == line[j]);
        } else if j > name.len() {
            assert(ops[j - name.len() - 1] == line[j]);
        }
    }
    assert(line[0] == name[0]);
    assert(line.last() == ops.last());
    assert(ops.last() == ops[ops.len() - 1]);
    law_first_line_is_read(line, Seq::empty());
    law_fields_of_a_line(name, ops, ops, ops);
    let e = acl.entries@[0];
    assert(spec_lines(line)[0] == line);
    assert(spec_parse_line(line, Seq::empty()) == Ok::<EntryView, Seq<char>>(e@));
    reveal(spec_parse_line);
    reveal_strlit("*");
    if name == "*"@ {
        assert(name[0] == '*');
        assert(name.contains('*'));
    }
    let p = pattern_of(name, Seq::empty())->0;
    assert(e@.client == Some(p));
    if permitted(acl.entries@, actor, op, target) {
        let i = choose|i: int| #[trigger]
            is_match(acl.entries@, actor, target, i) && acl.entries@[i].grants(op);
        let a = pattern_of(actor, Seq::empty())->0;
        assert(i == 0);
        assert(spec_match_client(p, a));
        lemma_no_wildcards(name, Seq::empty());
        law_exact_pattern(p, a);
    }
}

/// A text without `*` is a pattern without wildcards.
proof fn lemma_no_wildcards(s: Seq<char>, realm: Seq<char>)
    requires
        pattern_of(s, realm) is Some,
        !s.contains('*'),
        !realm.contains('*'),
    ensures
        !is_star(pattern_of(s, realm)->0.realm),
        forall|i: int|
            0 <= i < pattern_of(s, realm)->0.components.len() ==> !is_star(
                #[trigger] pattern_of(s, realm)->0.components[i],
            ),
{
    reveal_strlit("*");
    let at = last_position(s, '@');
    lemma_last_position(s, '@');
    let p = pattern_of(s, realm)->0;
    if is_star(p.realm) {
        assert(p.realm[0] == '*');
        if at >= 0 {
            let tail = s.skip(at + 1);
            assert(p.realm == tail);
            assert(tail.len() == s.len() - (at + 1));
            assert(tail[0] == s[at + 1]);
            assert(s.contains(s[at + 1]));
        } else {
            assert(realm.contains('*'));
        }
    }
    let name = if at >= 0 {
        s.take(at)
    } else {
        s
    };
    assert forall|i: int| 0 <= i < p.components.len() implies !is_star(
        #[trigger] p.components[i],
    ) by {
        if is_star(p.components[i]) {
            assert(p.components[i][0] == '*');
            lemma_split_part(name, '/', i, 0);
            let j = choose|j: int| 0 <= j < name.len() && name[j] == '*';
            assert(s[j] == name[j]);
        }
    }
}

/// Each character of a part stands in the whole.
proof fn lemma_split_part(s: Seq<char>, c: char, i: int, j: int)
    requires
        0 <= i < split(s, c).len(),
        0 <= j < split(s, c)[i].len(),
    ensures
        s.contains(split(s, c)[i][j]),
    decreases s.len(),
{
    lemma_position(s, c);
    lemma_split_step(s, c);
    let p = position(s, c);
    let x = split(s, c)[i][j];
    if p >= s.len() {
        assert(s[j] == x);
    } else if i == 0 {
        assert(s[j] == x);
    } else {
        let rest = s.skip(p + 1);
        assert(split(s, c)[i] == split(rest, c)[i - 1]);
        lemma_split_part(rest, c, i - 1, j);
        let k = choose|k: int| 0 <= k < rest.len() && rest[k] == x;
        assert(s[p + 1 + k] == x);
    }
}

/// The mask of what an administrator may do has a bit exactly where that
/// operation is permitted, where the first entry about the administrator is for
/// any target: 0x01 inquire, 0x02 add, 0x04 modify, 0x08 delete, 0x10 list, 0x20
/// change password, 0x40 extract.
pub proof fn law_mask_tells_what_is_permitted(
    entries: Seq<AclEntry>,
    actor: Seq<char>,
    i: int,
    m: u32,
)
    requires
        pattern_of(actor, Seq::empty()) matches Some(a) && {
            &&& 0 <= i < entries.len()
            &&& entries[i].is_about(a)
            &&& entries[i].target is None
            &&& forall|k: int| 0 <= k < i ==> !(#[trigger] entries[k]).is_about(a)
        },
        is_privs(entries, actor, m),
    ensures
        (m & 0x01 != 0) == permitted(entries, actor, AdminOp::Inquire, None),
        (m & 0x02 != 0) == permitted(entries, actor, AdminOp::Create, None),
        (m & 0x04 != 0) == permitted(entries, actor, AdminOp::Modify, None),
        (m & 0x08 != 0) == permitted(entries, actor, AdminOp::Delete, None),
        (m & 0x10 != 0) == permitted(entries, actor, AdminOp::List, None),
        (m & 0x20 != 0) == permitted(entries, actor, AdminOp::ChangePassword, None),
        (m & 0x40 != 0) == permitted(entries, actor, AdminOp::Extract, None),
        m < 0x80,
{
    let pa = pattern_of(actor, Seq::empty())->0;
    assert(entries[i].covers(pa, None));
    assert forall|k: int| 0 <= k < i implies !(#[trigger] entries[k]).covers(
        pa,
        target_pattern(None),
    ) by {
        assert(!entries[k].is_about(pa));
    }
    assert(is_match(entries, actor, None, i));
    lemma_permitted_by(entries, actor, None, i);
    assert(m == grant_mask(entries[i])) by {
        if m == 0 && forall|k: int|
            0 <= k < entries.len() ==> !(#[trigger] entries[k]).is_about(pa) {
            assert(!entries[i].is_about(pa));
        } else {
            let j = choose|j: int|
                {
                    &&& 0 <= j < entries.len()
                    &&& (#[trigger] entries[j]).is_about(pa)
                    &&& forall|k: int| 0 <= k < j ==> !(#[trigger] entries[k]).is_about(pa)
                    &&& m == grant_mask(entries[j])
                };
            if j < i {
                assert(!entries[j].is_about(pa));
            }
            if i < j {
                assert(!entries[i].is_about(pa));
            }
        }
    }
    let e = entries[i];
    let a: u32 = if e.inquire {
        0x01
    } else {
        0
    };
    let b: u32 = if e.add {
        0x02
    } else {
        0
    };
    let c: u32 = if e.modify {
        0x04
    } else {
        0
    };
    let d: u32 = if e.delete {
        0x08
    } else {
        0
    };
    let f: u32 = if e.list {
        0x10
    } else {
        0
    };
    let g: u32 = if e.changepw {
        0x20
    } else {
        0
    };
    let h: u32 = if e.extract {
        0x40
    } else {
        0
    };
    assert({
        let s = (a + b + c + d + f + g + h) as u32;
        &&& s & 0x01 == a
        &&& s & 0x02 == b
        &&& s & 0x04 == c
        &&& s & 0x08 == d
        &&& s & 0x10 == f
        &&& s & 0x20 == g
        &&& s & 0x40 == h
        &&& s < 0x80
    }) by (bit_vector)
        requires
            a == 0 || a == 0x01,
            b == 0 || b == 0x02,
            c == 0 || c == 0x04,
            d == 0 || d == 0x08,
            f == 0 || f == 0x10,
            g == 0 || g == 0x20,
            h == 0 || h == 0x40,
    ;
}

/// A limit that restrictions set is kept where it is below them and set to them
/// where it is above or missing; where they set none it is kept.
pub proof fn law_restricted_limits(v: u64, t: u32, d: u64, now: u32)
    ensures
        capped64(v, None) == v,
        0 < v <= d ==> capped64(v, Some(d)) == v,
        v == 0 || v >= d ==> capped64(v, Some(d)) == d,
        capped_time(t, None, now) == t,
        now + d <= u32::MAX && 0 < t <= now + d ==> capped_time(t, Some(d), now) == t,
        now + d <= u32::MAX && (t == 0 || t >= now + d) ==> capped_time(t, Some(d), now) == now + d,
        now + d > u32::MAX && t == 0 ==> capped_time(t, Some(d), now) == u32::MAX,
        now + d > u32::MAX && t != 0 ==> capped_time(t, Some(d), now) == t,
{
}

/// Restrictions set the attributes that they require and may keep, clear those
/// that may not stay, and leave every other as it is.
pub proof fn law_restricted_attributes(r: Restrictions, before: u32, b: u32)
    ensures
        r.forbid_attrs & b == 0 ==> r.attributes(before) & b == 0,
        r.require_attrs & b == b && r.forbid_attrs & b == b ==> r.attributes(before) & b == b,
        r.require_attrs & b == 0 && r.forbid_attrs & b == b ==> r.attributes(before) & b == before
            & b,
{
    let q = r.require_attrs;
    let f = r.forbid_attrs;
    assert({
        &&& f & b == 0 ==> ((before | q) & f) & b == 0
        &&& q & b == b && f & b == b ==> ((before | q) & f) & b == b
        &&& q & b == 0 && f & b == b ==> ((before | q) & f) & b == before & b
    }) by (bit_vector);
}

/// No two operations have the same name.
pub proof fn law_operations_have_names_of_their_own(a: AdminOp, b: AdminOp)
    requires
        spec_op_name(a) == spec_op_name(b),
    ensures
        a == b,
{
    reveal_strlit("create");
    reveal_strlit("delete");
    reveal_strlit("ktadd");
    reveal_strlit("cpw");
    reveal_strlit("inquire");
    reveal_strlit("extract");
    reveal_strlit("modify");
    reveal_strlit("setkey");
    reveal_strlit("list");
    reveal_strlit("propagate");
    let x = spec_op_name(a);
    let y = spec_op_name(b);
    assert("create"@.len() == 6 && "delete"@.len() == 6 && "ktadd"@.len() == 5 && "cpw"@.len() == 3);
    assert("inquire"@.len() == 7 && "extract"@.len() == 7 && "modify"@.len() == 6);
    assert("setkey"@.len() == 6 && "list"@.len() == 4 && "propagate"@.len() == 9);
    assert("create"@[0] == 'c' && "delete"@[0] == 'd' && "modify"@[0] == 'm');
    assert("setkey"@[0] == 's' && "inquire"@[0] == 'i' && "extract"@[0] == 'e');
    assert(x.len() == y.len() && x[0] == y[0]);
}

} // verus!
