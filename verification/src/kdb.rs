//! The principal database as decisions see it, and an in-memory database.

use crate::error::Error;
use crate::issue::tgs_policy::Lockout;
use crate::name::{
    krbtgt_view, lookup_principal_id, spec_lookup_principal_id, NameView, PrincipalName,
};
use crate::persist::PersistError;
use crate::store::{KeyEntry, NamedPolicy, Policy, Principal, RID_FIRST_USER};
use crate::text::{
    chars_of, lemma_precedes_asymmetric, lemma_precedes_total, lemma_precedes_transitive,
    precedes, range_string, str_eq, str_precedes, trim, trim_range,
};
use vstd::prelude::*;
use vstd::string::*;

verus! {

/// What a lookup brought, by value.
pub open spec fn fetched(r: Result<Option<&Principal>, Error>) -> Result<Option<Principal>, Error> {
    match r {
        Ok(Some(p)) => Ok(Some(*p)),
        Ok(None) => Ok(None),
        Err(e) => Err(e),
    }
}

/// Lookups in a principal database.
pub trait PrincipalRead {
    /// The realm.
    spec fn realm_view(&self) -> Seq<char>;

    /// The ticket policy.
    spec fn policy_view(&self) -> Policy;

    /// What a lookup of `id` brings.
    spec fn lookup(&self, id: Seq<char>) -> Result<Option<Principal>, Error>;

    /// What is known of the failed authentications of an entry.
    spec fn lockout_view(&self, p: Principal) -> Lockout;

    /// The realm.
    fn realm(&self) -> (r: &str)
        ensures
            r@ == self.realm_view(),
    ;

    /// The ticket policy.
    fn policy(&self) -> (r: &Policy)
        ensures
            *r == self.policy_view(),
    ;

    /// Looks up `name@REALM`.
    fn fetch(&self, id: &str) -> (r: Result<Option<&Principal>, Error>)
        ensures
            fetched(r) == self.lookup(id@),
    ;

    /// What is known of the failed authentications of an entry.
    fn lockout_of(&self, p: &Principal) -> (r: Lockout)
        ensures
            r == self.lockout_view(*p),
    ;

    /// Looks up a name in this realm.
    fn fetch_name(&self, name: &PrincipalName) -> (r: Result<Option<&Principal>, Error>)
        ensures
            fetched(r) == self.lookup(spec_lookup_principal_id(name@, self.realm_view())),
    {
        let id = lookup_principal_id(name, self.realm());
        self.fetch(id.as_str())
    }

    /// Looks up the local ticket-granting service.
    fn fetch_krbtgt(&self) -> (r: Result<Option<&Principal>, Error>)
        ensures
            fetched(r) == self.lookup(
                spec_lookup_principal_id(krbtgt_view(self.realm_view()), self.realm_view()),
            ),
    {
        let name = PrincipalName::krbtgt(self.realm());
        self.fetch_name(&name)
    }
}

/// A client's failed authentications since the database was opened.
#[derive(Clone, Copy, Debug, PartialEq, Eq, Structural)]
pub struct AsFailState {
    /// Failures since the last success.
    pub count: u32,
    /// Last failure.
    pub last_failed: u32,
    /// Last success.
    pub last_success: u32,
}

/// The record after one more attempt at time `now`: a success clears the
/// count, a failure adds one.
pub open spec fn spec_after_attempt(s: AsFailState, ok: bool, now: u32) -> AsFailState {
    if ok {
        AsFailState { count: 0, last_failed: s.last_failed, last_success: now }
    } else {
        AsFailState {
            count: s.count.saturating_add(1),
            last_failed: now,
            last_success: s.last_success,
        }
    }
}

/// The record after one more attempt.
pub fn after_attempt(s: AsFailState, ok: bool, now: u32) -> (r: AsFailState)
    ensures
        r == spec_after_attempt(s, ok, now),
{
    if ok {
        AsFailState { count: 0, last_failed: s.last_failed, last_success: now }
    } else {
        AsFailState {
            count: s.count.saturating_add(1),
            last_failed: now,
            last_success: s.last_success,
        }
    }
}

/// A database in memory: entries in the order of their ids, each id once,
/// and the failed authentications recorded on top of them.
pub struct MemoryStore {
    realm: String,
    entries: Vec<Principal>,
    policy: Policy,
    policies: Vec<NamedPolicy>,
    as_fail: Vec<(String, AsFailState)>,
}

/// The ids of `entries`, in order.
pub open spec fn ids_of(entries: Seq<Principal>) -> Seq<Seq<char>> {
    entries.map_values(|p: Principal| p.spec_id())
}

/// Ids in strictly ascending order.
pub open spec fn ascending(ids: Seq<Seq<char>>) -> bool {
    forall|i: int, j: int| 0 <= i < j < ids.len() ==> precedes(#[trigger] ids[i], #[trigger] ids[j])
}

/// Names that occur once.
pub open spec fn distinct(v: Seq<(String, AsFailState)>) -> bool {
    forall|i: int, j: int|
        0 <= i < j < v.len() ==> (#[trigger] v[i]).0@ != (#[trigger] v[j]).0@
}

impl MemoryStore {
    /// The entries, in the order of their ids.
    pub closed spec fn principals(&self) -> Seq<Principal> {
        self.entries@
    }

    /// The recorded attempts.
    pub closed spec fn attempts(&self) -> Map<Seq<char>, AsFailState> {
        attempts_map(self.as_fail@)
    }

    /// The named policies.
    pub closed spec fn named_policies(&self) -> Seq<NamedPolicy> {
        self.policies@
    }

    /// Entries stand in the order of their ids, and each id and each record
    /// is there once.
    #[verifier::type_invariant]
    closed spec fn wf(self) -> bool {
        ascending(ids_of(self.entries@)) && distinct(self.as_fail@)
    }
}

/// The records by id.
pub open spec fn attempts_map(v: Seq<(String, AsFailState)>) -> Map<Seq<char>, AsFailState>
    decreases v.len(),
{
    if v.len() == 0 {
        Map::empty()
    } else {
        attempts_map(v.drop_last()).insert(v.last().0@, v.last().1)
    }
}

/// The entry with id `id`, where there is one.
pub open spec fn entry_with(entries: Seq<Principal>, id: Seq<char>) -> Option<Principal> {
    if exists|i: int| 0 <= i < entries.len() && (#[trigger] entries[i]).spec_id() == id {
        Some(
            entries[choose|i: int|
                0 <= i < entries.len() && (#[trigger] entries[i]).spec_id() == id],
        )
    } else {
        None
    }
}

/// In a list in the order of ids, an id stands in one place.
proof fn lemma_entry_unique(entries: Seq<Principal>, i: int, j: int)
    requires
        ascending(ids_of(entries)),
        0 <= i < entries.len(),
        0 <= j < entries.len(),
        entries[i].spec_id() == entries[j].spec_id(),
    ensures
        i == j,
{
    let ids = ids_of(entries);
    assert(ids[i] == entries[i].spec_id());
    assert(ids[j] == entries[j].spec_id());
    if i < j {
        assert(precedes(ids[i], ids[j]));
        lemma_precedes_asymmetric(ids[i], ids[j]);
    }
    if j < i {
        assert(precedes(ids[j], ids[i]));
        lemma_precedes_asymmetric(ids[j], ids[i]);
    }
}

/// The entry with an id is the one found at its place.
proof fn lemma_entry_with(entries: Seq<Principal>, i: int)
    requires
        ascending(ids_of(entries)),
        0 <= i < entries.len(),
    ensures
        entry_with(entries, entries[i].spec_id()) == Some(entries[i]),
{
    let id = entries[i].spec_id();
    let j = choose|j: int| 0 <= j < entries.len() && (#[trigger] entries[j]).spec_id() == id;
    lemma_entry_unique(entries, i, j);
}

impl PrincipalRead for MemoryStore {
    closed spec fn realm_view(&self) -> Seq<char> {
        self.realm@
    }

    closed spec fn policy_view(&self) -> Policy {
        self.policy
    }

    open spec fn lookup(&self, id: Seq<char>) -> Result<Option<Principal>, Error> {
        Ok(entry_with(self.principals(), id))
    }

    open spec fn lockout_view(&self, p: Principal) -> Lockout {
        let known = self.attempts().contains_key(p.spec_id());
        let state = self.attempts()[p.spec_id()];
        let bound = policy_for(self.named_policies(), p);
        Lockout {
            fails: if known {
                state.count
            } else {
                p.fail_auth_count
            },
            last_failed: if known {
                state.last_failed
            } else {
                p.last_failed
            },
            max_fail: match bound {
                Some(q) => q.max_fail,
                None => 0,
            },
            interval: match bound {
                Some(q) => q.pw_failcnt_interval,
                None => 0,
            },
            duration: match bound {
                Some(q) => q.pw_lockout_duration,
                None => 0,
            },
        }
    }

    fn realm(&self) -> (r: &str) {
        self.realm.as_str()
    }

    fn policy(&self) -> (r: &Policy) {
        &self.policy
    }

    fn fetch(&self, id: &str) -> (r: Result<Option<&Principal>, Error>) {
        proof {
            use_type_invariant(self);
        }
        let (at, found) = self.place(id);
        if found {
            proof {
                lemma_entry_with(self.entries@, at as int);
            }
            return Ok(Some(&self.entries[at]));
        }
        Ok(None)
    }

    fn lockout_of(&self, p: &Principal) -> (r: Lockout) {
        let (interval, duration): (u32, u32) = match self.named_policy_for(p) {
            Some(q) => (q.pw_failcnt_interval, q.pw_lockout_duration),
            None => (0, 0),
        };
        Lockout {
            fails: self.fail_auth_of(p),
            last_failed: self.last_failed_of(p),
            max_fail: self.max_fail_for(p),
            interval,
            duration,
        }
    }
}

impl MemoryStore {
    /// An empty database for `realm`.
    pub fn new(realm: String, policy: Policy) -> (r: MemoryStore)
        ensures
            r.realm_view() == realm@,
            r.policy_view() == policy,
            r.principals().len() == 0,
            r.attempts() == Map::<Seq<char>, AsFailState>::empty(),
            r.named_policies().len() == 0,
    {
        MemoryStore {
            realm,
            entries: Vec::new(),
            policy,
            policies: Vec::new(),
            as_fail: Vec::new(),
        }
    }

    /// Where `id` stands, or would stand.
    fn place(&self, id: &str) -> (r: (usize, bool))
        ensures
            r.0 <= self.entries@.len(),
            r.1 ==> r.0 < self.entries@.len() && self.entries@[r.0 as int].spec_id() == id@,
            !r.1 ==> forall|i: int|
                0 <= i < self.entries@.len() ==> (#[trigger] self.entries@[i]).spec_id() != id@,
            forall|i: int|
                0 <= i < r.0 ==> precedes((#[trigger] self.entries@[i]).spec_id(), id@),
            !r.1 ==> forall|i: int|
                r.0 <= i < self.entries@.len() ==> precedes(
                    id@,
                    (#[trigger] self.entries@[i]).spec_id(),
                ),
    {
        proof {
            use_type_invariant(self);
        }
        let mut i: usize = 0;
        while i < self.entries.len()
            invariant
                i <= self.entries.len(),
                ascending(ids_of(self.entries@)),
                forall|k: int|
                    0 <= k < i ==> precedes((#[trigger] self.entries@[k]).spec_id(), id@),
            decreases self.entries.len() - i,
        {
            let here = self.entries[i].id();
            let ghost ids = ids_of(self.entries@);
            if str_eq(here.as_str(), id) {
                return (i, true);
            }
            if !str_precedes(here.as_str(), id) {
                proof {
                    lemma_precedes_total(here@, id@);
                    assert forall|k: int| 0 <= k < self.entries@.len() implies (
                    #[trigger] self.entries@[k]).spec_id() != id@ by {
                        if k < i {
                            lemma_precedes_asymmetric(self.entries@[k].spec_id(), id@);
                        } else if k > i {
                            assert(ids[i as int] == here@);
                            assert(ids[k] == self.entries@[k].spec_id());
                            assert(precedes(ids[i as int], ids[k]));
                            lemma_precedes_transitive(id@, here@, ids[k]);
                            lemma_precedes_asymmetric(id@, ids[k]);
                        }
                    }
                    assert forall|k: int| i <= k < self.entries@.len() implies precedes(
                        id@,
                        (#[trigger] self.entries@[k]).spec_id(),
                    ) by {
                        if k > i {
                            assert(ids[i as int] == here@);
                            assert(ids[k] == self.entries@[k].spec_id());
                            assert(precedes(ids[i as int], ids[k]));
                            lemma_precedes_transitive(id@, here@, ids[k]);
                        }
                    }
                }
                return (i, false);
            }
            i = i + 1;
        }
        proof {
            assert forall|k: int| 0 <= k < self.entries@.len() implies (
            #[trigger] self.entries@[k]).spec_id() != id@ by {
                lemma_precedes_asymmetric(self.entries@[k].spec_id(), id@);
            }
        }
        (i, false)
    }

    /// Inserts an entry, in place of the one with its id where there is one.
    pub fn put_principal(&mut self, p: Principal)
        ensures
            entry_with(final(self).principals(), p.spec_id()) == Some(p),
            forall|id: Seq<char>|
                id != p.spec_id() ==> #[trigger] entry_with(final(self).principals(), id)
                    == entry_with(old(self).principals(), id),
            final(self).attempts() == old(self).attempts(),
            final(self).realm_view() == old(self).realm_view(),
            final(self).policy_view() == old(self).policy_view(),
            final(self).named_policies() == old(self).named_policies(),
    {
        proof {
            use_type_invariant(&*self);
        }
        let id = p.id();
        let (at, found) = self.place(id.as_str());
        let ghost before = self.entries@;
        let mut entries: Vec<Principal> = Vec::new();
        proof {
            assert(ascending(ids_of(Seq::<Principal>::empty())));
        }
        std::mem::swap(&mut entries, &mut self.entries);
        if found {
            entries.set(at, p);
            proof {
                assert(ids_of(entries@) =~= ids_of(before));
            }
        } else {
            entries.insert(at, p);
            proof {
                let ids = ids_of(entries@);
                let old_ids = ids_of(before);
                assert forall|i: int, j: int| 0 <= i < j < ids.len() implies precedes(
                    #[trigger] ids[i],
                    #[trigger] ids[j],
                ) by {
                    if i == at {
                        assert(ids[j] == before[j - 1].spec_id());
                    } else if j == at {
                        assert(ids[i] == before[i].spec_id());
                    } else {
                        let a = if i < at {
                            i
                        } else {
                            i - 1
                        };
                        let b = if j < at {
                            j
                        } else {
                            j - 1
                        };
                        assert(ids[i] == old_ids[a]);
                        assert(ids[j] == old_ids[b]);
                    }
                }
            }
        }
        proof {
            let after = entries@;
            assert(after[at as int] == p);
            lemma_entry_with(after, at as int);
            assert forall|x: Seq<char>| x != p.spec_id() implies #[trigger] entry_with(after, x)
                == entry_with(before, x) by {
                if exists|i: int| 0 <= i < before.len() && (#[trigger] before[i]).spec_id() == x {
                    let i = choose|i: int|
                        0 <= i < before.len() && (#[trigger] before[i]).spec_id() == x;
                    let k = if found || i < at {
                        i
                    } else {
                        i + 1
                    };
                    assert(after[k] == before[i]);
                    lemma_entry_with(after, k);
                    lemma_entry_with(before, i);
                } else if exists|k: int|
                    0 <= k < after.len() && (#[trigger] after[k]).spec_id() == x {
                    let k = choose|k: int|
                        0 <= k < after.len() && (#[trigger] after[k]).spec_id() == x;
                    let i = if found || k < at {
                        k
                    } else {
                        k - 1
                    };
                    assert(before[i] == after[k]);
                }
            }
        }
        self.entries = entries;
    }

    /// Takes an entry out, where there is one.
    pub fn take_id(&mut self, id: &str) -> (r: Option<Principal>)
        ensures
            r == entry_with(old(self).principals(), id@),
            r is None ==> final(self).principals() == old(self).principals(),
            entry_with(final(self).principals(), id@) is None,
            forall|x: Seq<char>|
                x != id@ ==> #[trigger] entry_with(final(self).principals(), x) == entry_with(
                    old(self).principals(),
                    x,
                ),
            final(self).attempts() == old(self).attempts(),
            final(self).realm_view() == old(self).realm_view(),
            final(self).policy_view() == old(self).policy_view(),
            final(self).named_policies() == old(self).named_policies(),
    {
        proof {
            use_type_invariant(&*self);
        }
        let (at, found) = self.place(id);
        let ghost before = self.entries@;
        if !found {
            return None;
        }
        let mut entries: Vec<Principal> = Vec::new();
        proof {
            assert(ascending(ids_of(Seq::<Principal>::empty())));
        }
        std::mem::swap(&mut entries, &mut self.entries);
        let gone = entries.remove(at);
        proof {
            let after = entries@;
            let ids = ids_of(after);
            let old_ids = ids_of(before);
            assert forall|i: int, j: int| 0 <= i < j < ids.len() implies precedes(
                #[trigger] ids[i],
                #[trigger] ids[j],
            ) by {
                let a = if i < at {
                    i
                } else {
                    i + 1
                };
                let b = if j < at {
                    j
                } else {
                    j + 1
                };
                assert(ids[i] == old_ids[a]);
                assert(ids[j] == old_ids[b]);
            }
            lemma_entry_with(before, at as int);
            if exists|k: int| 0 <= k < after.len() && (#[trigger] after[k]).spec_id() == id@ {
                let k = choose|k: int|
                    0 <= k < after.len() && (#[trigger] after[k]).spec_id() == id@;
                let i = if k < at {
                    k
                } else {
                    k + 1
                };
                assert(before[i] == after[k]);
                lemma_entry_unique(before, i, at as int);
            }
            assert forall|x: Seq<char>| x != id@ implies #[trigger] entry_with(after, x)
                == entry_with(before, x) by {
                if exists|i: int| 0 <= i < before.len() && (#[trigger] before[i]).spec_id() == x {
                    let i = choose|i: int|
                        0 <= i < before.len() && (#[trigger] before[i]).spec_id() == x;
                    let k = if i < at {
                        i
                    } else {
                        i - 1
                    };
                    assert(after[k] == before[i]);
                    lemma_entry_with(after, k);
                    lemma_entry_with(before, i);
                } else if exists|k: int|
                    0 <= k < after.len() && (#[trigger] after[k]).spec_id() == x {
                    let k = choose|k: int|
                        0 <= k < after.len() && (#[trigger] after[k]).spec_id() == x;
                    let i = if k < at {
                        k
                    } else {
                        k + 1
                    };
                    assert(before[i] == after[k]);
                }
            }
        }
        self.entries = entries;
        Some(gone)
    }

    /// Deletes the entry with id `id`.
    pub fn remove_id(&mut self, id: &str) -> (r: Result<(), Error>)
        ensures
            r is Ok <==> entry_with(old(self).principals(), id@) is Some,
            r matches Err(e) ==> e == Error::NotFound && final(self).principals() == old(
                self,
            ).principals(),
            r is Ok ==> entry_with(final(self).principals(), id@) is None,
            forall|x: Seq<char>|
                x != id@ ==> #[trigger] entry_with(final(self).principals(), x) == entry_with(
                    old(self).principals(),
                    x,
                ),
            final(self).attempts() == old(self).attempts(),
            final(self).realm_view() == old(self).realm_view(),
            final(self).policy_view() == old(self).policy_view(),
            final(self).named_policies() == old(self).named_policies(),
    {
        match self.take_id(id) {
            Some(_) => Ok(()),
            None => Err(Error::NotFound),
        }
    }

    /// The ids of all entries, in order.
    pub fn list_ids(&self) -> (r: Vec<String>)
        ensures
            crate::text::views(r@) == ids_of(self.principals()),
            ascending(crate::text::views(r@)),
    {
        proof {
            use_type_invariant(self);
        }
        let mut out: Vec<String> = Vec::new();
        let mut i: usize = 0;
        while i < self.entries.len()
            invariant
                i <= self.entries.len(),
                crate::text::views(out@) == ids_of(self.entries@).take(i as int),
            decreases self.entries.len() - i,
        {
            let ghost before = out@;
            out.push(self.entries[i].id());
            proof {
                assert(crate::text::views(out@) =~= crate::text::views(before).push(
                    self.entries@[i as int].spec_id(),
                ));
                assert(ids_of(self.entries@).take(i + 1) =~= ids_of(self.entries@).take(
                    i as int,
                ).push(self.entries@[i as int].spec_id()));
            }
            i = i + 1;
        }
        proof {
            assert(ids_of(self.entries@).take(i as int) =~= ids_of(self.entries@));
        }
        out
    }
}

/// The last of `ps` with id `id`, where there is one.
pub open spec fn last_with(ps: Seq<Principal>, id: Seq<char>) -> Option<Principal>
    decreases ps.len(),
{
    if ps.len() == 0 {
        None
    } else if ps.last().spec_id() == id {
        Some(ps.last())
    } else {
        last_with(ps.drop_last(), id)
    }
}

impl MemoryStore {
    /// A database of entries; of two with one id, the later stays.
    pub fn from_principals(realm: String, policy: Policy, ps: Vec<Principal>) -> (r: MemoryStore)
        ensures
            r.realm_view() == realm@,
            r.policy_view() == policy,
            forall|id: Seq<char>| #[trigger] entry_with(r.principals(), id) == last_with(ps@, id),
            r.attempts() == Map::<Seq<char>, AsFailState>::empty(),
            r.named_policies().len() == 0,
    {
        let ghost all = ps@;
        let mut back: Vec<Principal> = Vec::new();
        let mut rest = ps;
        while rest.len() > 0
            invariant
                all == rest@ + back@.reverse(),
            decreases rest@.len(),
        {
            let ghost before = rest@;
            let ghost b0 = back@;
            match rest.pop() {
                Some(p) => {
                    back.push(p);
                    proof {
                        assert(before =~= rest@.push(p));
                        assert(back@.reverse() =~= seq![p] + b0.reverse());
                        assert(all =~= rest@ + back@.reverse());
                    }
                },
                None => {},
            }
        }
        let mut out = MemoryStore::new(realm, policy);
        proof {
            assert(all =~= back@.reverse());
            assert(all.take(0) =~= Seq::<Principal>::empty());
            assert(all.skip(0) =~= all);
        }
        let ghost mut k: int = 0;
        while back.len() > 0
            invariant
                0 <= k <= all.len(),
                back@.reverse() == all.skip(k),
                out.realm_view() == realm@,
                out.policy_view() == policy,
                out.attempts() == Map::<Seq<char>, AsFailState>::empty(),
                out.named_policies().len() == 0,
                forall|id: Seq<char>| #[trigger]
                    entry_with(out.principals(), id) == last_with(all.take(k), id),
            decreases back@.len(),
        {
            let ghost before = back@;
            match back.pop() {
                Some(p) => {
                    proof {
                        assert(before =~= back@.push(p));
                        assert(before.reverse() =~= seq![p] + back@.reverse());
                        assert(all.skip(k)[0] == p);
                        assert(all[k] == p);
                        assert(back@.reverse() =~= all.skip(k + 1)) by {
                            assert(before.reverse().drop_first() =~= back@.reverse());
                            assert(all.skip(k).drop_first() =~= all.skip(k + 1));
                        }
                        assert(all.take(k + 1).drop_last() =~= all.take(k));
                        assert(all.take(k + 1).last() == p);
                    }
                    out.put_principal(p);
                    proof {
                        k = k + 1;
                        assert forall|id: Seq<char>| #[trigger]
                            entry_with(out.principals(), id) == last_with(all.take(k), id) by {
                            if id != p.spec_id() {
                                assert(last_with(all.take(k), id) == last_with(
                                    all.take(k - 1),
                                    id,
                                ));
                            }
                        }
                    }
                },
                None => {},
            }
        }
        proof {
            assert(all.skip(k).len() == 0);
            assert(all.take(k) =~= all);
        }
        out
    }
}

/// The record of an id is that of its one place.
proof fn lemma_attempt_at(v: Seq<(String, AsFailState)>, i: int)
    requires
        distinct(v),
        0 <= i < v.len(),
    ensures
        attempts_map(v).contains_key(v[i].0@),
        attempts_map(v)[v[i].0@] == v[i].1,
    decreases v.len(),
{
    if i < v.len() - 1 {
        let front = v.drop_last();
        assert(distinct(front)) by {
            assert forall|a: int, b: int| 0 <= a < b < front.len() implies (
            #[trigger] front[a]).0@ != (#[trigger] front[b]).0@ by {
                assert(v[a].0@ != v[b].0@);
            }
        }
        lemma_attempt_at(front, i);
        assert(front[i] == v[i]);
        assert(v[i].0@ != v[v.len() - 1].0@);
    }
}

/// An id that has a record has a place.
proof fn lemma_attempt_none(v: Seq<(String, AsFailState)>, id: Seq<char>)
    requires
        forall|i: int| 0 <= i < v.len() ==> (#[trigger] v[i]).0@ != id,
    ensures
        !attempts_map(v).contains_key(id),
    decreases v.len(),
{
    if v.len() > 0 {
        let front = v.drop_last();
        assert forall|i: int| 0 <= i < front.len() implies (#[trigger] front[i]).0@ != id by {
            assert(front[i] == v[i]);
        }
        lemma_attempt_none(front, id);
        assert(v[v.len() - 1].0@ != id);
    }
}

/// A record that is set at the one place of its id is set for the id.
proof fn lemma_attempt_set(v: Seq<(String, AsFailState)>, w: Seq<(String, AsFailState)>, i: int)
    requires
        distinct(v),
        0 <= i < v.len(),
        w.len() == v.len(),
        w[i].0@ == v[i].0@,
        forall|k: int| 0 <= k < v.len() && k != i ==> w[k] == v[k],
    ensures
        distinct(w),
        attempts_map(w) == attempts_map(v).insert(v[i].0@, w[i].1),
    decreases v.len(),
{
    assert(distinct(w)) by {
        assert forall|a: int, b: int| 0 <= a < b < w.len() implies (#[trigger] w[a]).0@ != (
        #[trigger] w[b]).0@ by {
            assert(v[a].0@ != v[b].0@);
        }
    }
    let n = v.len() - 1;
    let front = v.drop_last();
    if i == n {
        assert(w.drop_last() =~= front);
        assert(attempts_map(w) =~= attempts_map(v).insert(v[i].0@, w[i].1));
    } else {
        assert(distinct(front)) by {
            assert forall|a: int, b: int| 0 <= a < b < front.len() implies (
            #[trigger] front[a]).0@ != (#[trigger] front[b]).0@ by {
                assert(v[a].0@ != v[b].0@);
            }
        }
        lemma_attempt_set(front, w.drop_last(), i);
        assert(v[i].0@ != v[n].0@);
        assert(w.last() == v.last());
        assert(attempts_map(w) =~= attempts_map(v).insert(v[i].0@, w[i].1));
    }
}

/// The record that an entry starts with.
pub open spec fn starting_state(p: Option<Principal>) -> AsFailState {
    match p {
        Some(e) => AsFailState {
            count: e.fail_auth_count,
            last_failed: e.last_failed,
            last_success: e.last_success,
        },
        None => AsFailState { count: 0, last_failed: 0, last_success: 0 },
    }
}

/// The policy with a name.
pub open spec fn policy_with(v: Seq<NamedPolicy>, name: Seq<char>) -> Option<NamedPolicy>
    decreases v.len(),
{
    if v.len() == 0 {
        None
    } else if v[0].name@ == name {
        Some(v[0])
    } else {
        policy_with(v.drop_first(), name)
    }
}

/// The policy that an entry is bound to.
pub open spec fn policy_for(v: Seq<NamedPolicy>, p: Principal) -> Option<NamedPolicy> {
    match p.pw_policy {
        Some(n) => policy_with(v, n@),
        None => None,
    }
}

/// The keys of ticket-granting services other than that of `realm`, in the
/// order of the entries.
pub open spec fn cross_keys(entries: Seq<Principal>, realm: Seq<char>) -> Seq<KeyEntry>
    decreases entries.len(),
{
    if entries.len() == 0 {
        Seq::empty()
    } else {
        let front = cross_keys(entries.drop_last(), realm);
        if entries.last().name@.is_krbtgt() && !entries.last().name@.is_krbtgt_for(realm) {
            front + entries.last().keys@
        } else {
            front
        }
    }
}

/// Adds the keys of an entry.
fn add_keys<'a>(out: &mut Vec<&'a KeyEntry>, keys: &'a [KeyEntry])
    ensures
        final(out)@ == old(out)@ + keys@.map_values(|k: KeyEntry| &k),
{
    let ghost before = out@;
    let ghost all = keys@.map_values(|k: KeyEntry| &k);
    let mut i: usize = 0;
    proof {
        assert(before + all.take(0) =~= before);
    }
    while i < keys.len()
        invariant
            i <= keys@.len(),
            all == keys@.map_values(|k: KeyEntry| &k),
            out@ == before + all.take(i as int),
        decreases keys@.len() - i,
    {
        out.push(&keys[i]);
        proof {
            assert(out@ =~= before + all.take(i + 1));
        }
        i = i + 1;
    }
    proof {
        assert(all.take(all.len() as int) =~= all);
    }
}

impl MemoryStore {
    /// Where the record of an id is.
    fn attempt_place(&self, id: &str) -> (r: Option<usize>)
        ensures
            match r {
                Some(i) => i < self.as_fail@.len() && self.as_fail@[i as int].0@ == id@
                    && self.attempts().contains_key(id@) && self.attempts()[id@]
                    == self.as_fail@[i as int].1,
                None => !self.attempts().contains_key(id@) && forall|k: int|
                    0 <= k < self.as_fail@.len() ==> (#[trigger] self.as_fail@[k]).0@ != id@,
            },
    {
        proof {
            use_type_invariant(self);
        }
        let mut i: usize = 0;
        while i < self.as_fail.len()
            invariant
                i <= self.as_fail@.len(),
                distinct(self.as_fail@),
                forall|k: int| 0 <= k < i ==> (#[trigger] self.as_fail@[k]).0@ != id@,
            decreases self.as_fail@.len() - i,
        {
            if str_eq(self.as_fail[i].0.as_str(), id) {
                proof {
                    lemma_attempt_at(self.as_fail@, i as int);
                }
                return Some(i);
            }
            i = i + 1;
        }
        proof {
            lemma_attempt_none(self.as_fail@, id@);
        }
        None
    }

    /// Failures of an entry since its last success.
    pub fn fail_auth_of(&self, p: &Principal) -> (r: u32)
        ensures
            r == (if self.attempts().contains_key(p.spec_id()) {
                self.attempts()[p.spec_id()].count
            } else {
                p.fail_auth_count
            }),
    {
        let id = p.id();
        match self.attempt_place(id.as_str()) {
            Some(i) => self.as_fail[i].1.count,
            None => p.fail_auth_count,
        }
    }

    /// The last failure of an entry.
    pub fn last_failed_of(&self, p: &Principal) -> (r: u32)
        ensures
            r == (if self.attempts().contains_key(p.spec_id()) {
                self.attempts()[p.spec_id()].last_failed
            } else {
                p.last_failed
            }),
    {
        let id = p.id();
        match self.attempt_place(id.as_str()) {
            Some(i) => self.as_fail[i].1.last_failed,
            None => p.last_failed,
        }
    }

    /// The last success of an entry.
    pub fn last_success_of(&self, p: &Principal) -> (r: u32)
        ensures
            r == (if self.attempts().contains_key(p.spec_id()) {
                self.attempts()[p.spec_id()].last_success
            } else {
                p.last_success
            }),
    {
        let id = p.id();
        match self.attempt_place(id.as_str()) {
            Some(i) => self.as_fail[i].1.last_success,
            None => p.last_success,
        }
    }

    /// Sets the record of an id.
    fn set_attempt(&mut self, id: String, state: AsFailState)
        ensures
            final(self).attempts() == old(self).attempts().insert(id@, state),
            final(self).principals() == old(self).principals(),
            final(self).realm_view() == old(self).realm_view(),
            final(self).policy_view() == old(self).policy_view(),
            final(self).named_policies() == old(self).named_policies(),
    {
        let place = self.attempt_place(id.as_str());
        proof {
            use_type_invariant(&*self);
        }
        let ghost before = self.as_fail@;
        let mut v: Vec<(String, AsFailState)> = Vec::new();
        std::mem::swap(&mut v, &mut self.as_fail);
        match place {
            Some(i) => {
                v.set(i, (id, state));
                proof {
                    lemma_attempt_set(before, v@, i as int);
                }
            },
            None => {
                v.push((id, state));
                proof {
                    assert(v@.drop_last() =~= before);
                    assert(distinct(v@)) by {
                        assert forall|a: int, b: int| 0 <= a < b < v@.len() implies (
                        #[trigger] v@[a]).0@ != (#[trigger] v@[b]).0@ by {
                            assert(v@[a] == before[a]);
                            if b < before.len() {
                                assert(before[a].0@ != before[b].0@);
                            }
                        }
                    }
                }
            },
        }
        self.as_fail = v;
    }

    /// The id of a name in this realm.
    fn id_of(&self, name: &PrincipalName) -> (r: String)
        ensures
            r@ == name@.joined().push('@') + self.realm_view(),
    {
        let mut id = name.components_joined();
        id.push('@');
        id.append(self.realm.as_str());
        id
    }

    /// The record that an id stands at.
    fn state_of(&self, id: &str) -> (r: AsFailState)
        ensures
            r == (if self.attempts().contains_key(id@) {
                self.attempts()[id@]
            } else {
                starting_state(entry_with(self.principals(), id@))
            }),
    {
        match self.attempt_place(id) {
            Some(i) => self.as_fail[i].1,
            None => match self.fetch(id) {
                Ok(Some(p)) => AsFailState {
                    count: p.fail_auth_count,
                    last_failed: p.last_failed,
                    last_success: p.last_success,
                },
                _ => AsFailState { count: 0, last_failed: 0, last_success: 0 },
            },
        }
    }

    /// Records an attempt to authenticate at time `now`.
    pub fn record_as_outcome(&mut self, name: &PrincipalName, ok: bool, now: u32)
        ensures
            ({
                let id = name@.joined().push('@') + old(self).realm_view();
                let state = if old(self).attempts().contains_key(id) {
                    old(self).attempts()[id]
                } else {
                    starting_state(entry_with(old(self).principals(), id))
                };
                final(self).attempts() == old(self).attempts().insert(
                    id,
                    spec_after_attempt(state, ok, now),
                )
            }),
            final(self).principals() == old(self).principals(),
            final(self).realm_view() == old(self).realm_view(),
            final(self).policy_view() == old(self).policy_view(),
            final(self).named_policies() == old(self).named_policies(),
    {
        let id = self.id_of(name);
        let state = self.state_of(id.as_str());
        self.set_attempt(id, after_attempt(state, ok, now));
    }

    /// Clears the failures of a name; the times stay.
    pub fn clear_as_fail_count(&mut self, name: &PrincipalName)
        ensures
            ({
                let id = name@.joined().push('@') + old(self).realm_view();
                let state = if old(self).attempts().contains_key(id) {
                    old(self).attempts()[id]
                } else {
                    starting_state(entry_with(old(self).principals(), id))
                };
                final(self).attempts() == old(self).attempts().insert(
                    id,
                    AsFailState {
                        count: 0,
                        last_failed: state.last_failed,
                        last_success: state.last_success,
                    },
                )
            }),
            final(self).principals() == old(self).principals(),
            final(self).realm_view() == old(self).realm_view(),
            final(self).policy_view() == old(self).policy_view(),
            final(self).named_policies() == old(self).named_policies(),
    {
        let id = self.id_of(name);
        let state = self.state_of(id.as_str());
        self.set_attempt(
            id,
            AsFailState {
                count: 0,
                last_failed: state.last_failed,
                last_success: state.last_success,
            },
        );
    }

    /// Adds a password policy, which comes before those with its name.
    pub fn put_policy(&mut self, p: NamedPolicy)
        ensures
            final(self).named_policies() == seq![p] + old(self).named_policies(),
            final(self).principals() == old(self).principals(),
            final(self).attempts() == old(self).attempts(),
            final(self).realm_view() == old(self).realm_view(),
            final(self).policy_view() == old(self).policy_view(),
    {
        proof {
            use_type_invariant(&*self);
        }
        let ghost before = self.policies@;
        let mut v: Vec<NamedPolicy> = Vec::new();
        std::mem::swap(&mut v, &mut self.policies);
        v.insert(0, p);
        proof {
            assert(v@ =~= seq![p] + before);
        }
        self.policies = v;
    }

    /// The policy that an entry is bound to.
    pub fn named_policy_for(&self, p: &Principal) -> (r: Option<&NamedPolicy>)
        ensures
            match r {
                Some(q) => policy_for(self.named_policies(), *p) == Some(*q),
                None => policy_for(self.named_policies(), *p) is None,
            },
    {
        let name: &str = match &p.pw_policy {
            Some(n) => n.as_str(),
            None => {
                return None;
            },
        };
        let ghost all = self.policies@;
        let mut i: usize = 0;
        proof {
            assert(all.skip(0) =~= all);
        }
        while i < self.policies.len()
            invariant
                i <= self.policies@.len(),
                all == self.policies@,
                p.pw_policy matches Some(n) && n@ == name@,
                policy_with(all, name@) == policy_with(all.skip(i as int), name@),
            decreases self.policies@.len() - i,
        {
            proof {
                assert(all.skip(i as int)[0] == all[i as int]);
                assert(all.skip(i as int).drop_first() =~= all.skip(i + 1));
            }
            if str_eq(self.policies[i].name.as_str(), name) {
                return Some(&self.policies[i]);
            }
            i = i + 1;
        }
        None
    }

    /// Failures after which an entry is locked out; zero where it never is.
    pub fn max_fail_for(&self, p: &Principal) -> (r: u32)
        ensures
            r == (match policy_for(self.named_policies(), *p) {
                Some(q) => q.max_fail,
                None => 0,
            }),
    {
        match self.named_policy_for(p) {
            Some(q) => q.max_fail,
            None => 0,
        }
    }

    /// The keys of the local ticket-granting service, then those of the
    /// others.
    pub fn krbtgt_keys(&self) -> (r: Vec<&KeyEntry>)
        ensures
            r@ == (match entry_with(
                self.principals(),
                spec_lookup_principal_id(krbtgt_view(self.realm_view()), self.realm_view()),
            ) {
                Some(p) => p.keys@,
                None => Seq::<KeyEntry>::empty(),
            } + cross_keys(self.principals(), self.realm_view())).map_values(|k: KeyEntry| &k),
    {
        let mut out: Vec<&KeyEntry> = Vec::new();
        let ghost mut local = Seq::<KeyEntry>::empty();
        match self.fetch_krbtgt() {
            Ok(Some(p)) => {
                add_keys(&mut out, p.keys.as_slice());
                proof {
                    local = p.keys@;
                }
            },
            _ => {},
        }
        let ghost front = out@;
        proof {
            assert(front =~= local.map_values(|k: KeyEntry| &k));
            assert(self.entries@.take(0) =~= Seq::<Principal>::empty());
            assert(out@ =~= front + cross_keys(self.entries@.take(0), self.realm@).map_values(
                |k: KeyEntry| &k,
            ));
        }
        let mut i: usize = 0;
        while i < self.entries.len()
            invariant
                i <= self.entries@.len(),
                out@ == front + cross_keys(
                    self.entries@.take(i as int),
                    self.realm@,
                ).map_values(|k: KeyEntry| &k),
            decreases self.entries@.len() - i,
        {
            let ghost before = out@;
            proof {
                assert(self.entries@.take(i + 1).drop_last() =~= self.entries@.take(i as int));
                assert(self.entries@.take(i + 1).last() == self.entries@[i as int]);
            }
            let p: &Principal = &self.entries[i];
            if p.name.is_krbtgt() && !p.name.is_krbtgt_for(self.realm.as_str()) {
                add_keys(&mut out, p.keys.as_slice());
                proof {
                    let c = cross_keys(self.entries@.take(i as int), self.realm@);
                    assert((c + p.keys@).map_values(|k: KeyEntry| &k) =~= c.map_values(
                        |k: KeyEntry| &k,
                    ) + p.keys@.map_values(|k: KeyEntry| &k));
                    assert(out@ =~= front + (c + p.keys@).map_values(|k: KeyEntry| &k));
                }
            }
            i = i + 1;
        }
        proof {
            assert(self.entries@.take(i as int) =~= self.entries@);
            let c = cross_keys(self.entries@, self.realm@);
            assert((local + c).map_values(|k: KeyEntry| &k) =~= local.map_values(
                |k: KeyEntry| &k,
            ) + c.map_values(|k: KeyEntry| &k));
        }
        out
    }
}

/// A success clears the failures, and each failure adds one to them, up to
/// the largest number.
pub proof fn law_success_clears_failures(s: AsFailState, t1: u32, t2: u32)
    ensures
        spec_after_attempt(s, true, t1).count == 0,
        spec_after_attempt(s, true, t1).last_failed == s.last_failed,
        s.count < u32::MAX ==> spec_after_attempt(s, false, t1).count == s.count + 1,
        spec_after_attempt(spec_after_attempt(s, true, t1), false, t2).count == 1,
{
}

/// Changes to a principal database.
pub trait PrincipalWrite: PrincipalRead {
    /// Inserts an entry, in place of the one with its id where there is one.
    fn write_principal(&mut self, p: Principal) -> (r: Result<(), Error>)
        ensures
            r is Ok ==> final(self).lookup(p.spec_id()) == Ok::<Option<Principal>, Error>(Some(p)),
            r is Ok ==> forall|id: Seq<char>|
                id != p.spec_id() ==> #[trigger] final(self).lookup(id) == old(self).lookup(id),
    ;

    /// Deletes the entry with id `id`.
    fn delete_id(&mut self, id: &str) -> (r: Result<(), Error>)
        ensures
            r is Ok ==> final(self).lookup(id@) == Ok::<Option<Principal>, Error>(None),
            r is Ok ==> forall|x: Seq<char>|
                x != id@ ==> #[trigger] final(self).lookup(x) == old(self).lookup(x),
    ;
}

impl PrincipalWrite for MemoryStore {
    fn write_principal(&mut self, p: Principal) -> (r: Result<(), Error>)
        ensures
            r is Ok,
    {
        self.put_principal(p);
        Ok(())
    }

    fn delete_id(&mut self, id: &str) -> (r: Result<(), Error>)
        ensures
            r is Ok <==> entry_with(old(self).principals(), id@) is Some,
            r matches Err(e) ==> e == Error::NotFound,
    {
        self.remove_id(id)
    }
}

/// Reading a database anew, and writing it through.
pub trait StoreLifecycle {
    /// Reads the database anew where its file has changed.
    fn reload_if_stale(&mut self) -> (r: Result<(), Error>);

    /// Writes the database through where it has a file.
    fn save_if_configured(&self) -> (r: Result<(), Error>);
}

impl StoreLifecycle for MemoryStore {
    /// There is no file: nothing is done.
    fn reload_if_stale(&mut self) -> (r: Result<(), Error>)
        ensures
            r is Ok,
            *final(self) == *old(self),
    {
        Ok(())
    }

    /// There is no file: nothing is done.
    fn save_if_configured(&self) -> (r: Result<(), Error>)
        ensures
            r is Ok,
    {
        Ok(())
    }
}

/// A whole principal database.
pub trait Store: PrincipalRead + PrincipalWrite + StoreLifecycle {
}

impl Store for MemoryStore {

}

/// Who a PAC speaks of.
#[derive(Clone, Debug, PartialEq, Eq)]
pub struct PacIdentity {
    /// Account name.
    pub sam: String,
    /// The client's realm.
    pub realm: String,
    /// Relative identifier.
    pub rid: u32,
}

/// `r` is who the PAC of a client speaks of.
pub open spec fn is_pac_identity<S: PrincipalRead>(
    store: &S,
    name: NameView,
    crealm: Seq<char>,
    r: PacIdentity,
) -> bool {
    &&& r.sam@ == name.joined()
    &&& r.realm@ == crealm
    &&& r.rid == (match store.lookup(spec_lookup_principal_id(name, store.realm_view())) {
        Ok(Some(p)) => if p.rid == 0 {
            RID_FIRST_USER
        } else {
            p.rid
        },
        _ => RID_FIRST_USER,
    })
}

/// Who the PAC of a client speaks of: its relative identifier is that of its
/// entry, or that of the first user where it has none.
pub fn pac_identity<S: PrincipalRead>(store: &S, name: &PrincipalName, crealm: &str) -> (r:
    PacIdentity)
    ensures
        is_pac_identity(store, name@, crealm@, r),
{
    let rid: u32 = match store.fetch_name(name) {
        Ok(Some(p)) => if p.rid == 0 {
            RID_FIRST_USER
        } else {
            p.rid
        },
        _ => RID_FIRST_USER,
    };
    PacIdentity { sam: name.components_joined(), realm: crealm.to_owned(), rid }
}

/// The database library named in the configuration is the dump.
pub open spec fn is_dump_library(name: Option<Seq<char>>) -> bool {
    match name {
        None => true,
        Some(n) => {
            let t = trim(n);
            t.len() == 0 || t == "dump"@ || t == "dump-v7"@ || t == "kdb5_dump"@
        },
    }
}

/// Opens the database named in the configuration: `load` loads the dump. A
/// library that is not known is refused, and nothing is loaded.
pub fn open_store<T, F: FnOnce() -> Result<T, PersistError>>(
    db_library: Option<&str>,
    load: F,
) -> (r: Result<T, PersistError>)
    requires
        call_requires(load, ()),
    ensures
        match db_library {
            None => call_ensures(load, (), r),
            Some(n) => if is_dump_library(Some(n@)) {
                call_ensures(load, (), r)
            } else {
                r matches Err(PersistError::UnknownDbLibrary(m)) && m@ == trim(n@)
            },
        },
{
    match db_library {
        None => load(),
        Some(n) => {
            let cs = chars_of(n);
            let (i, j): (usize, usize) = trim_range(cs.as_slice());
            let name = range_string(cs.as_slice(), i, j);
            if i == j || str_eq(name.as_str(), "dump") || str_eq(name.as_str(), "dump-v7")
                || str_eq(name.as_str(), "kdb5_dump") {
                load()
            } else {
                Err(PersistError::UnknownDbLibrary(name))
            }
        },
    }
}

/// An attempt changes the time of its own kind and leaves that of the other: a
/// failure is the last failure and keeps the last success, a success the reverse.
pub proof fn law_attempt_is_dated(s: AsFailState, now: u32)
    ensures
        spec_after_attempt(s, true, now) == (AsFailState {
            count: 0,
            last_failed: s.last_failed,
            last_success: now,
        }),
        spec_after_attempt(s, false, now).last_failed == now,
        spec_after_attempt(s, false, now).last_success == s.last_success,
        spec_after_attempt(s, false, now).count >= s.count,
        s.count == u32::MAX ==> spec_after_attempt(s, false, now).count == u32::MAX,
{
}

/// The record of an entry starts with the entry's own failures and times, and
/// with none where there is no entry.
pub proof fn law_record_starts_with_the_entry(p: Principal)
    ensures
        starting_state(Some(p)).count == p.fail_auth_count,
        starting_state(Some(p)).last_failed == p.last_failed,
        starting_state(Some(p)).last_success == p.last_success,
        starting_state(None).count == 0,
        starting_state(None).last_failed == 0,
        starting_state(None).last_success == 0,
{
}

/// The policy of a name is the first with it, whatever stands behind; an entry
/// without a policy is bound to none.
pub proof fn law_first_policy_counts(
    before: Seq<NamedPolicy>,
    q: NamedPolicy,
    behind: Seq<NamedPolicy>,
    p: Principal,
)
    requires
        forall|i: int| 0 <= i < before.len() ==> (#[trigger] before[i]).name@ != q.name@,
    ensures
        policy_with(before + seq![q] + behind, q.name@) == Some(q),
        policy_with(before, q.name@) is None,
        p.pw_policy matches Some(n) ==> n@ == q.name@ ==> policy_for(
            before + seq![q] + behind,
            p,
        ) == Some(q),
        p.pw_policy is None ==> policy_for(before + seq![q] + behind, p) is None,
    decreases before.len(),
{
    let all = before + seq![q] + behind;
    if before.len() == 0 {
        assert(all[0] == q);
    } else {
        let t = before.drop_first();
        assert forall|i: int| 0 <= i < t.len() implies (#[trigger] t[i]).name@ != q.name@ by {
            assert(t[i] == before[i + 1]);
        }
        law_first_policy_counts(t, q, behind, p);
        assert(all[0] == before[0]);
        assert(all.drop_first() =~= t + seq![q] + behind);
    }
}

/// The keys of other realms' ticket-granting services are those of each such
/// entry, in order: an entry gives its keys exactly where it is named `krbtgt`
/// with another realm.
pub proof fn law_foreign_tgs_keys_are_all(
    entries: Seq<Principal>,
    p: Principal,
    realm: Seq<char>,
)
    ensures
        cross_keys(Seq::empty(), realm).len() == 0,
        p.name@.components.len() == 2 && p.name@.components[0] == "krbtgt"@
            && p.name@.components[1] != realm ==> cross_keys(entries.push(p), realm) == cross_keys(
            entries,
            realm,
        ) + p.keys@,
        p.name@.components.len() != 2 || p.name@.components[0] != "krbtgt"@
            || p.name@.components[1] == realm ==> cross_keys(entries.push(p), realm) == cross_keys(
            entries,
            realm,
        ),
{
    assert(entries.push(p).drop_last() =~= entries);
}

/// Of entries with one id the last stays, and an entry changes nothing of the
/// others.
pub proof fn law_later_entry_stays(ps: Seq<Principal>, p: Principal, id: Seq<char>)
    ensures
        last_with(ps.push(p), p.spec_id()) == Some(p),
        id != p.name@.joined() + seq!['@'] + p.realm@ ==> last_with(ps.push(p), id) == last_with(
            ps,
            id,
        ),
        last_with(Seq::empty(), id) is None,
{
    assert(ps.push(p).drop_last() =~= ps);
    assert(p.name@.joined() + seq!['@'] =~= p.name@.joined().push('@'));
}

/// A PAC names its client by the entry's own identifier where that is set, and by
/// that of the first user where it is not or there is no entry.
pub proof fn law_pac_names_the_entry<S: PrincipalRead>(
    store: &S,
    name: NameView,
    crealm: Seq<char>,
    r: PacIdentity,
)
    requires
        is_pac_identity(store, name, crealm, r),
    ensures
        r.sam@ == crate::text::join(name.components, '/'),
        r.realm@ == crealm,
        store.lookup(spec_lookup_principal_id(name, store.realm_view())) matches Ok(Some(p))
            ==> p.rid != 0 ==> r.rid == p.rid,
        r.rid != 0,
        !(store.lookup(spec_lookup_principal_id(name, store.realm_view())) matches Ok(Some(_)))
            ==> r.rid == 1000,
{
}

/// What is known of an entry's failures is what was recorded since the database
/// was opened, and the entry's own where nothing was; its limits are those of the
/// policy that it is bound to, and none without one.
pub proof fn law_lockout_is_the_recorded(store: MemoryStore, p: Principal)
    ensures
        store.attempts().contains_key(p.spec_id()) ==> store.lockout_view(p).fails
            == store.attempts()[p.spec_id()].count && store.lockout_view(p).last_failed
            == store.attempts()[p.spec_id()].last_failed,
        !store.attempts().contains_key(p.spec_id()) ==> store.lockout_view(p).fails
            == p.fail_auth_count && store.lockout_view(p).last_failed == p.last_failed,
        policy_for(store.named_policies(), p) matches Some(q) ==> {
            &&& store.lockout_view(p).max_fail == q.max_fail
            &&& store.lockout_view(p).interval == q.pw_failcnt_interval
            &&& store.lockout_view(p).duration == q.pw_lockout_duration
        },
        policy_for(store.named_policies(), p) is None ==> store.lockout_view(p).max_fail == 0,
{
}

/// An id is looked up to an entry with that id, and to nothing where no entry has
/// it.
pub proof fn law_entry_has_its_id(entries: Seq<Principal>, id: Seq<char>, i: int)
    ensures
        entry_with(entries, id) matches Some(p) ==> p.spec_id() == id && entries.contains(p),
        0 <= i < entries.len() && entries[i].spec_id() == id ==> entry_with(entries, id) is Some,
        (forall|k: int| 0 <= k < entries.len() ==> (#[trigger] entries[k]).spec_id() != id)
            ==> entry_with(entries, id) is None,
{
}

} // verus!
