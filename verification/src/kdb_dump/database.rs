//! A whole database out of a dump, and a dump of a whole database.

use crate::kdb::{entry_with, last_with, MemoryStore, PrincipalRead};
use crate::kdb_dump::entry::{
    is_entry_of, law_sid_round_trip, opened_views, record_of, sid_of, sid_view, spec_entry,
    to_record, with_sid, DomainSid, DumpErrorView, SidView, KDB_V1_BASE_LENGTH,
};
use crate::kdb_dump::entry::{attributes_of, made_tl};
use crate::kdb_dump::write::{dump_text, write_records};
use crate::kdb_dump::{
    parse_dump, princ_views, spec_parse_dump, spec_realm, BlobView, DumpError, DumpFile,
    DumpKeyView, DumpPrincipal, FileView, PrincView,
};
use crate::mkey::master_name;
use crate::name::NameView;
use crate::store::{
    key_views, KeyEntry, KeyView, Policy, Principal, KDB_DISALLOW_ALL_TIX, KDB_LOCKDOWN_KEYS,
    KDB_REQUIRES_PRE_AUTH,
};
use crate::text::{
    chars_of, has_prefix, lemma_precedes_asymmetric, lemma_precedes_total,
    lemma_precedes_transitive, precedes, str_eq, str_precedes,
};
use vstd::prelude::*;
use vstd::string::*;

verus! {

/// The domain identifier of a dump: that in the record of `K/M`, or else the
/// first.
pub open spec fn domain_of(v: Seq<PrincView>) -> Option<SidView>
    decreases v.len(),
{
    if v.len() == 0 {
        None
    } else {
        let before = domain_of(v.drop_last());
        let here = sid_of(v.last().tl_data).0;
        if "K/M@"@.is_prefix_of(v.last().name) {
            if here is Some {
                here
            } else {
                before
            }
        } else if before is None {
            here
        } else {
            before
        }
    }
}

/// What opening the keys of each record gave.
pub open spec fn opened_lists(
    v: Seq<Vec<Result<Vec<u8>, String>>>,
) -> Seq<Seq<Result<Seq<u8>, Seq<char>>>> {
    v.map_values(|x: Vec<Result<Vec<u8>, String>>| opened_views(x@))
}

/// Each record has an outcome for each of its keys.
pub open spec fn outcomes_fit(
    v: Seq<PrincView>,
    opened: Seq<Seq<Result<Seq<u8>, Seq<char>>>>,
) -> bool {
    v.len() == opened.len() && forall|i: int|
        0 <= i < v.len() ==> (#[trigger] v[i]).keys.len() == opened[i].len()
}

/// `ps` are the entries of records.
pub open spec fn are_entries_of(
    ps: Seq<Principal>,
    v: Seq<PrincView>,
    opened: Seq<Seq<Result<Seq<u8>, Seq<char>>>>,
    mkey: Seq<u8>,
    refusal: Seq<char>,
) -> bool {
    ps.len() == v.len() && forall|i: int|
        0 <= i < v.len() ==> (spec_entry(#[trigger] v[i], opened[i], mkey, refusal) matches Ok(t)
            && is_entry_of(ps[i], v[i], t.0, t.1, t.2))
}

/// The record at `i` is the first that is wrong, and `e` says how.
pub open spec fn fails_at(
    i: int,
    e: DumpErrorView,
    v: Seq<PrincView>,
    opened: Seq<Seq<Result<Seq<u8>, Seq<char>>>>,
    mkey: Seq<u8>,
    refusal: Seq<char>,
) -> bool {
    &&& 0 <= i < v.len()
    &&& spec_entry(v[i], opened[i], mkey, refusal) == Err::<
        (NameView, Seq<char>, Seq<KeyView>),
        DumpErrorView,
    >(e)
    &&& forall|k: int|
        0 <= k < i ==> spec_entry(#[trigger] v[k], opened[k], mkey, refusal) is Ok
}

/// The entries of records, and the domain identifier.
pub fn into_principals(
    princs: Vec<DumpPrincipal>,
    mkey: &[u8],
    opened: &[Vec<Result<Vec<u8>, String>>],
    refusal: &str,
) -> (r: Result<(Vec<Principal>, Option<DomainSid>), DumpError>)
    requires
        outcomes_fit(princ_views(princs@), opened_lists(opened@)),
    ensures
        match r {
            Ok((ps, domain)) => are_entries_of(
                ps@,
                princ_views(princs@),
                opened_lists(opened@),
                mkey@,
                refusal@,
            ) && sid_view(domain) == domain_of(princ_views(princs@)),
            Err(e) => exists|i: int|
                fails_at(
                    i,
                    e@,
                    princ_views(princs@),
                    opened_lists(opened@),
                    mkey@,
                    refusal@,
                ),
        },
{
    let ghost all = princ_views(princs@);
    let ghost ol = opened_lists(opened@);
    let mut back: Vec<DumpPrincipal> = Vec::new();
    let mut rest = princs;
    while rest.len() > 0
        invariant
            all == princ_views(rest@) + princ_views(back@).reverse(),
        decreases rest@.len(),
    {
        let ghost before = rest@;
        let ghost b0 = back@;
        match rest.pop() {
            Some(p) => {
                let ghost pv = p@;
                back.push(p);
                proof {
                    assert(princ_views(before) =~= princ_views(rest@).push(pv));
                    assert(princ_views(back@).reverse() =~= seq![pv] + princ_views(b0).reverse());
                    assert(all =~= princ_views(rest@) + princ_views(back@).reverse());
                }
            },
            None => {},
        }
    }
    let mut out: Vec<Principal> = Vec::new();
    let mut domain: Option<DomainSid> = None;
    let mut k: usize = 0;
    proof {
        assert(all =~= princ_views(back@).reverse());
        assert(all.skip(0) =~= all);
        assert(all.take(0) =~= Seq::<PrincView>::empty());
    }
    while back.len() > 0
        invariant
            k <= all.len(),
            all == princ_views(princs@),
            all.len() == opened@.len(),
            ol == opened_lists(opened@),
            outcomes_fit(all, ol),
            princ_views(back@).reverse() == all.skip(k as int),
            out@.len() == k,
            forall|i: int|
                0 <= i < k ==> (spec_entry(#[trigger] all[i], ol[i], mkey@, refusal@) matches Ok(t)
                    && is_entry_of(out@[i], all[i], t.0, t.1, t.2)),
            sid_view(domain) == domain_of(all.take(k as int)),
        decreases back@.len(),
    {
        let ghost before = back@;
        match back.pop() {
            Some(p) => {
                proof {
                    assert(princ_views(before) =~= princ_views(back@).push(p@));
                    assert(princ_views(before).reverse() =~= seq![p@] + princ_views(
                        back@,
                    ).reverse());
                    assert(all.skip(k as int)[0] == p@);
                    assert(all[k as int] == p@);
                    assert(princ_views(back@).reverse() =~= all.skip(k + 1)) by {
                        assert(princ_views(before).reverse().drop_first() =~= princ_views(
                            back@,
                        ).reverse());
                        assert(all.skip(k as int).drop_first() =~= all.skip(k + 1));
                    }
                    assert(all.take(k + 1).drop_last() =~= all.take(k as int));
                    assert(all.take(k + 1).last() == p@);
                    assert(ol[k as int] == opened_views(opened@[k as int]@));
                    assert(all[k as int].keys.len() == p.keys@.len());
                }
                let cs = chars_of(p.name.as_str());
                let is_km: bool = has_prefix(cs.as_slice(), "K/M@");
                match p.into_principal(mkey, opened[k].as_slice(), refusal) {
                    Ok((entry, sid)) => {
                        if is_km {
                            if sid.is_some() {
                                domain = sid;
                            }
                        } else if domain.is_none() {
                            domain = sid;
                        }
                        out.push(entry);
                    },
                    Err(e) => {
                        proof {
                            assert(fails_at(k as int, e@, all, ol, mkey@, refusal@));
                        }
                        return Err(e);
                    },
                }
                k = k + 1;
            },
            None => {},
        }
    }
    proof {
        assert(all.skip(k as int).len() == 0);
        assert(all.take(k as int) =~= all);
    }
    Ok((out, domain))
}

/// `s` holds the entries of a dump: of two records for one id the later
/// counts.
pub open spec fn holds_dump(
    s: MemoryStore,
    f: FileView,
    opened: Seq<Seq<Result<Seq<u8>, Seq<char>>>>,
    mkey: Seq<u8>,
    refusal: Seq<char>,
    policy: Policy,
) -> bool {
    &&& spec_realm(f) == Ok::<Seq<char>, Seq<char>>(s.realm_view())
    &&& s.policy_view() == policy
    &&& exists|ps: Seq<Principal>|
        #![trigger are_entries_of(ps, f.princs, opened, mkey, refusal)]
        are_entries_of(ps, f.princs, opened, mkey, refusal) && forall|id: Seq<char>| #[trigger]
            entry_with(s.principals(), id) == last_with(ps, id)
}

/// Why a dump gives no database.
pub open spec fn no_database(
    e: DumpErrorView,
    f: FileView,
    opened: Seq<Seq<Result<Seq<u8>, Seq<char>>>>,
    mkey: Seq<u8>,
    refusal: Seq<char>,
) -> bool {
    match spec_realm(f) {
        Err(m) => e == DumpErrorView::Format(m),
        Ok(_) => exists|i: int| fails_at(i, e, f.princs, opened, mkey, refusal),
    }
}

impl DumpFile {
    /// The database of the dump, and its domain identifier. `opened` holds
    /// what decrypting each key of each record in the master key `mkey` gave.
    pub fn into_store(
        self,
        policy: Policy,
        mkey: &[u8],
        opened: &[Vec<Result<Vec<u8>, String>>],
        refusal: &str,
    ) -> (r: Result<(MemoryStore, Option<DomainSid>), DumpError>)
        requires
            outcomes_fit(self@.princs, opened_lists(opened@)),
        ensures
            match r {
                Ok((s, domain)) => holds_dump(
                    s,
                    self@,
                    opened_lists(opened@),
                    mkey@,
                    refusal@,
                    policy,
                ) && sid_view(domain) == domain_of(self@.princs),
                Err(e) => no_database(e@, self@, opened_lists(opened@), mkey@, refusal@),
            },
    {
        let realm: String = match self.realm() {
            Ok(s) => s,
            Err(e) => {
                return Err(e);
            },
        };
        match into_principals(self.princs, mkey, opened, refusal) {
            Ok((ps, domain)) => {
                let s = MemoryStore::from_principals(realm, policy, ps);
                proof {
                    assert(are_entries_of(
                        ps@,
                        self@.princs,
                        opened_lists(opened@),
                        mkey@,
                        refusal@,
                    ));
                }
                Ok((s, domain))
            },
            Err(e) => Err(e),
        }
    }
}

/// The database that a dump text says.
pub fn load_dump(
    text: &str,
    policy: Policy,
    mkey: &[u8],
    opened: &[Vec<Result<Vec<u8>, String>>],
    refusal: &str,
) -> (r: Result<(MemoryStore, Option<DomainSid>), DumpError>)
    requires
        spec_parse_dump(text@) matches Ok(f) ==> outcomes_fit(f.princs, opened_lists(opened@)),
    ensures
        match r {
            Ok((s, domain)) => spec_parse_dump(text@) matches Ok(f) && holds_dump(
                s,
                f,
                opened_lists(opened@),
                mkey@,
                refusal@,
                policy,
            ) && sid_view(domain) == domain_of(f.princs),
            Err(e) => match spec_parse_dump(text@) {
                Err(m) => e@ == DumpErrorView::Format(m),
                Ok(f) => no_database(e@, f, opened_lists(opened@), mkey@, refusal@),
            },
        },
{
    match parse_dump(text) {
        Ok(f) => f.into_store(policy, mkey, opened, refusal),
        Err(e) => Err(e),
    }
}

/// The order in which a dump has two names: `K/M` first, then by characters.
pub open spec fn comes_before(a: Seq<char>, b: Seq<char>) -> bool {
    if a == "K/M"@ {
        b != "K/M"@
    } else {
        b != "K/M"@ && precedes(a, b)
    }
}

/// The joined names of entries.
pub open spec fn joined_names(ps: Seq<Principal>) -> Seq<Seq<char>> {
    ps.map_values(|p: Principal| p.name@.joined())
}

/// Places `i` and `j` stand in the right order: by name, and by place where
/// the names are the same.
pub open spec fn in_dump_order(names: Seq<Seq<char>>, i: usize, j: usize) -> bool {
    comes_before(names[i as int], names[j as int]) || (names[i as int] == names[j as int] && i < j)
}

/// `order` is the order in which a dump has entries.
pub open spec fn is_dump_order(order: Seq<usize>, names: Seq<Seq<char>>) -> bool {
    &&& order.len() == names.len()
    &&& forall|i: int| 0 <= i < order.len() ==> (#[trigger] order[i]) < names.len()
    &&& forall|i: int, j: int|
        0 <= i < j < order.len() ==> in_dump_order(names, #[trigger] order[i], #[trigger] order[j])
}

/// The order is total and transitive.
proof fn lemma_comes_before(a: Seq<char>, b: Seq<char>, c: Seq<char>)
    ensures
        comes_before(a, b) || comes_before(b, a) || a == b,
        !(comes_before(a, b) && comes_before(b, a)),
        comes_before(a, b) ==> a != b,
        comes_before(a, b) && comes_before(b, c) ==> comes_before(a, c),
{
    if a != b {
        lemma_precedes_total(a, b);
    }
    if precedes(a, b) {
        lemma_precedes_asymmetric(a, b);
    }
    if precedes(b, a) {
        lemma_precedes_asymmetric(b, a);
    }
    if precedes(a, b) && precedes(b, c) {
        lemma_precedes_transitive(a, b, c);
    }
}

/// Whether `a` comes before `b` in a dump.
fn name_before(a: &str, b: &str) -> (r: bool)
    ensures
        r == comes_before(a@, b@),
{
    if str_eq(a, "K/M") {
        !str_eq(b, "K/M")
    } else {
        !str_eq(b, "K/M") && str_precedes(a, b)
    }
}

/// The order in which a dump has entries.
pub fn dump_order(ps: &[Principal]) -> (r: Vec<usize>)
    ensures
        is_dump_order(r@, joined_names(ps@)),
{
    let ghost names = joined_names(ps@);
    let mut order: Vec<usize> = Vec::new();
    let mut i: usize = 0;
    while i < ps.len()
        invariant
            i <= ps@.len(),
            names == joined_names(ps@),
            order@.len() == i,
            forall|k: int| 0 <= k < order@.len() ==> (#[trigger] order@[k]) < i,
            forall|k: int, m: int|
                0 <= k < m < order@.len() ==> in_dump_order(
                    names,
                    #[trigger] order@[k],
                    #[trigger] order@[m],
                ),
        decreases ps@.len() - i,
    {
        let here = ps[i].name.components_joined();
        let ghost before = order@;
        let mut at: usize = order.len();
        while at > 0 && name_before(
            here.as_str(),
            ps[order[at - 1]].name.components_joined().as_str(),
        )
            invariant
                at <= order@.len(),
                order@ == before,
                i < ps@.len(),
                names == joined_names(ps@),
                here@ == names[i as int],
                forall|k: int| 0 <= k < order@.len() ==> (#[trigger] order@[k]) < i,
                forall|k: int|
                    at <= k < order@.len() ==> comes_before(
                        names[i as int],
                        names[(#[trigger] order@[k]) as int],
                    ),
            decreases at,
        {
            at = at - 1;
        }
        order.insert(at, i);
        proof {
            assert forall|k: int, m: int| 0 <= k < m < order@.len() implies in_dump_order(
                names,
                #[trigger] order@[k],
                #[trigger] order@[m],
            ) by {
                if m == at {
                    assert(order@[k] == before[k]);
                    let last = before[at - 1];
                    lemma_comes_before(
                        names[last as int],
                        names[i as int],
                        names[i as int],
                    );
                    if k < at - 1 {
                        assert(in_dump_order(names, before[k], last));
                        lemma_comes_before(
                            names[before[k] as int],
                            names[last as int],
                            names[i as int],
                        );
                    }
                } else if k == at {
                    assert(order@[m] == before[m - 1]);
                } else {
                    let a = if k < at {
                        k
                    } else {
                        k - 1
                    };
                    let b = if m < at {
                        m
                    } else {
                        m - 1
                    };
                    assert(order@[k] == before[a]);
                    assert(order@[m] == before[b]);
                }
            }
            assert forall|k: int| 0 <= k < order@.len() implies (#[trigger] order@[k]) < i + 1 by {
                if k < at {
                    assert(order@[k] == before[k]);
                } else if k > at {
                    assert(order@[k] == before[k - 1]);
                }
            }
        }
        i = i + 1;
    }
    order
}

/// The record of a `K/M` that has to be made: its key is the master key, which
/// `enc` is encrypted in itself.
pub open spec fn made_km(
    realm: Seq<char>,
    etype: i32,
    enc: Seq<u8>,
    domain: SidView,
    now: u32,
) -> PrincView {
    PrincView {
        db_len: KDB_V1_BASE_LENGTH,
        name: "K/M@"@ + realm,
        attributes: attributes_of(KDB_DISALLOW_ALL_TIX | KDB_LOCKDOWN_KEYS, false, true),
        max_life: 36_000,
        max_renewable_life: 604_800,
        expiration: 0,
        pw_expiration: 0,
        last_success: 0,
        last_failed: 0,
        fail_auth_count: 0,
        tl_data: with_sid(made_tl(realm, now, 1, true), domain, 0),
        keys: seq![DumpKeyView { ver: 1, kvno: 1, slots: seq![BlobView { ty: etype, contents: enc }] }],
        e_data: Seq::empty(),
    }
}

/// The records of entries, in an order; the first key that could not be
/// encrypted decides.
pub open spec fn records_in(
    order: Seq<usize>,
    ps: Seq<Principal>,
    policy: Policy,
    domain: SidView,
    now: u32,
    sealed: Seq<Seq<Result<Seq<u8>, Seq<char>>>>,
) -> Result<Seq<PrincView>, Seq<char>>
    decreases order.len(),
{
    if order.len() == 0 {
        Ok(Seq::empty())
    } else {
        match records_in(order.drop_last(), ps, policy, domain, now, sealed) {
            Err(e) => Err(e),
            Ok(v) => {
                let i = order.last() as int;
                match record_of(ps[i], policy, domain, now, sealed[i]) {
                    Err(e) => Err(e),
                    Ok(d) => Ok(v.push(d)),
                }
            },
        }
    }
}

/// Records of which one fails fail with more behind them too.
proof fn lemma_records_fail(
    order: Seq<usize>,
    k: int,
    ps: Seq<Principal>,
    policy: Policy,
    domain: SidView,
    now: u32,
    sealed: Seq<Seq<Result<Seq<u8>, Seq<char>>>>,
)
    requires
        0 <= k <= order.len(),
        records_in(order.take(k), ps, policy, domain, now, sealed) is Err,
    ensures
        records_in(order, ps, policy, domain, now, sealed) == records_in(
            order.take(k),
            ps,
            policy,
            domain,
            now,
            sealed,
        ),
    decreases order.len(),
{
    if k == order.len() {
        assert(order.take(k) =~= order);
    } else {
        assert(order.drop_last().take(k) =~= order.take(k));
        lemma_records_fail(order.drop_last(), k, ps, policy, domain, now, sealed);
    }
}

/// Some entry is `K/M`.
pub open spec fn has_km(ps: Seq<Principal>) -> bool {
    exists|i: int| 0 <= i < ps.len() && (#[trigger] ps[i]).name@.joined() == "K/M"@
}

/// Whether some entry is `K/M`.
fn find_km(ps: &[Principal]) -> (r: bool)
    ensures
        r == has_km(ps@),
{
    let mut i: usize = 0;
    while i < ps.len()
        invariant
            i <= ps@.len(),
            forall|k: int| 0 <= k < i ==> (#[trigger] ps@[k]).name@.joined() != "K/M"@,
        decreases ps@.len() - i,
    {
        let joined = ps[i].name.components_joined();
        if str_eq(joined.as_str(), "K/M") {
            return true;
        }
        i = i + 1;
    }
    false
}

/// What a dump of a database is: the records of its entries in their order,
/// behind that of a `K/M` that is made where there is none. `km_sealed` is
/// what encrypting the master key in itself gave.
pub open spec fn dump_of(
    order: Seq<usize>,
    realm: Seq<char>,
    ps: Seq<Principal>,
    policy: Policy,
    domain: SidView,
    etype: i32,
    now: u32,
    km_sealed: Result<Seq<u8>, Seq<char>>,
    sealed: Seq<Seq<Result<Seq<u8>, Seq<char>>>>,
) -> Result<Seq<char>, Seq<char>> {
    if !has_km(ps) && km_sealed is Err {
        Err(km_sealed->Err_0)
    } else {
        match records_in(order, ps, policy, domain, now, sealed) {
            Err(e) => Err(e),
            Ok(v) => Ok(
                dump_text(
                    if has_km(ps) {
                        v
                    } else {
                        seq![made_km(realm, etype, km_sealed->Ok_0, domain, now)] + v
                    },
                ),
            ),
        }
    }
}

/// The entry of the master key, where there is none.
fn synthesize_km(realm: &str, etype: i32, mkey: Vec<u8>) -> (r: Principal)
    ensures
        r.name@ == crate::mkey::master_view(),
        r.realm@ == realm@,
        key_views(r.keys@) == seq![
            KeyView { etype, kvno: 1, key: mkey@, salt_type: None, kdb_salt: None },
        ],
        r.salt@ == r.name@.salt(realm@),
        !r.requires_preauth,
        r.locked,
        r.attributes == KDB_DISALLOW_ALL_TIX | KDB_LOCKDOWN_KEYS,
        r.max_life == 36_000,
        r.max_renewable_life == 604_800,
        r.tl_data@.len() == 0,
        r.mkvno == 1,
        r.rid == 0,
        r.db_entry_len == KDB_V1_BASE_LENGTH,
        r.expiration == 0,
        r.pw_expire == 0,
        r.last_success == 0,
        r.last_failed == 0,
        r.fail_auth_count == 0,
        r.e_data@.len() == 0,
{
    let name = master_name();
    let salt = name.default_salt(realm);
    let mut keys: Vec<KeyEntry> = Vec::new();
    keys.push(KeyEntry { etype, kvno: 1, key: mkey, salt_type: None, kdb_salt: None });
    proof {
        assert(key_views(keys@) =~= seq![
            KeyView { etype, kvno: 1, key: mkey@, salt_type: None, kdb_salt: None },
        ]);
    }
    Principal {
        name,
        realm: realm.to_owned(),
        keys,
        key_history: Vec::new(),
        salt,
        requires_preauth: false,
        max_life: 36_000,
        locked: true,
        pw_expire: 0,
        attributes: KDB_DISALLOW_ALL_TIX | KDB_LOCKDOWN_KEYS,
        max_renewable_life: 604_800,
        expiration: 0,
        last_success: 0,
        last_failed: 0,
        fail_auth_count: 0,
        mkvno: 1,
        db_entry_len: KDB_V1_BASE_LENGTH,
        tl_data: Vec::new(),
        e_data: Vec::new(),
        rid: 0,
        pw_policy: None,
        string_attrs: Vec::new(),
        s4u_allowed_to: Vec::new(),
        s4u_allowed_from: Vec::new(),
    }
}

/// The record of a `K/M` that has to be made.
fn km_record(
    realm: &str,
    etype: i32,
    mkey: Vec<u8>,
    policy: &Policy,
    domain: &DomainSid,
    now: u32,
    km_sealed: Result<Vec<u8>, String>,
) -> (r: Result<DumpPrincipal, DumpError>)
    ensures
        match r {
            Ok(d) => km_sealed matches Ok(enc) && d@ == made_km(realm@, etype, enc@, domain@, now),
            Err(e) => e matches DumpError::Crypto(m) && km_sealed matches Err(w) && m@ == w@,
        },
{
    let km = synthesize_km(realm, etype, mkey);
    let mut one: Vec<Result<Vec<u8>, String>> = Vec::new();
    one.push(km_sealed);
    let r = to_record(&km, policy, domain, now, one.as_slice());
    proof {
        let ks = key_views(km.keys@);
        let sv = opened_views(one@);
        assert(km.keys@.len() == ks.len());
        assert(sv[0] == crate::kdb_dump::entry::opened_view(km_sealed));
        assert(ks.drop_last() =~= Seq::<KeyView>::empty());
        reveal_with_fuel(crate::kdb_dump::entry::sealed_keys, 2);
        reveal_strlit("K/M@");
        reveal_strlit("K/M");
        reveal_strlit("K");
        reveal_strlit("M");
        let parts = km.name@.components;
        assert(parts.drop_last() =~= seq!["K"@]);
        reveal_with_fuel(crate::text::join, 3);
        assert(km.name@.joined() =~= "K/M"@);
        assert(km.spec_id() =~= "K/M@"@ + realm@);
        if km_sealed is Ok {
            let d = r->Ok_0;
            let enc = (km_sealed->Ok_0)@;
            assert(d@.keys =~= made_km(realm@, etype, enc, domain@, now).keys);
            assert(d@.e_data =~= Seq::<u8>::empty());
            assert(d@ =~= made_km(realm@, etype, enc, domain@, now));
        }
    }
    r
}

/// Writes a dump of a database.
pub fn dump_store(
    realm: &str,
    ps: &[Principal],
    policy: &Policy,
    domain: &DomainSid,
    etype: i32,
    mkey: Vec<u8>,
    now: u32,
    km_sealed: Result<Vec<u8>, String>,
    sealed: &[Vec<Result<Vec<u8>, String>>],
) -> (r: Result<String, DumpError>)
    requires
        sealed@.len() == ps@.len(),
        forall|i: int| 0 <= i < ps@.len() ==> (#[trigger] sealed@[i])@.len() == ps@[i].keys@.len(),
    ensures
        exists|order: Seq<usize>| #[trigger]
            is_dump_order(order, joined_names(ps@)) && (match r {
                Ok(t) => dump_of(
                    order,
                    realm@,
                    ps@,
                    *policy,
                    domain@,
                    etype,
                    now,
                    crate::kdb_dump::entry::opened_view(km_sealed),
                    opened_lists(sealed@),
                ) == Ok::<Seq<char>, Seq<char>>(t@),
                Err(e) => e matches DumpError::Crypto(m) && dump_of(
                    order,
                    realm@,
                    ps@,
                    *policy,
                    domain@,
                    etype,
                    now,
                    crate::kdb_dump::entry::opened_view(km_sealed),
                    opened_lists(sealed@),
                ) == Err::<Seq<char>, Seq<char>>(m@),
            }),
{
    let order = dump_order(ps);
    let ghost sl = opened_lists(sealed@);
    proof {
        assert(is_dump_order(order@, joined_names(ps@)));
    }
    let mut out: Vec<DumpPrincipal> = Vec::new();
    let found: bool = find_km(ps);
    if !found {
        match km_record(realm, etype, mkey, policy, domain, now, km_sealed) {
            Ok(d) => {
                out.push(d);
            },
            Err(e) => {
                return Err(e);
            },
        }
    }
    let ghost front = princ_views(out@);
    let mut i: usize = 0;
    proof {
        if found {
            assert(front =~= Seq::<PrincView>::empty());
        } else {
            assert(front =~= seq![
                made_km(realm@, etype, (km_sealed->Ok_0)@, domain@, now),
            ]);
        }
        assert(order@.take(0) =~= Seq::<usize>::empty());
        assert(front + Seq::<PrincView>::empty() =~= front);
    }
    while i < order.len()
        invariant
            i <= order@.len(),
            is_dump_order(order@, joined_names(ps@)),
            sealed@.len() == ps@.len(),
            forall|k: int|
                0 <= k < ps@.len() ==> (#[trigger] sealed@[k])@.len() == ps@[k].keys@.len(),
            sl == opened_lists(sealed@),
            found == has_km(ps@),
            !found ==> km_sealed is Ok,
            records_in(order@.take(i as int), ps@, *policy, domain@, now, sl) matches Ok(v)
                && princ_views(out@) == front + v,
        decreases order@.len() - i,
    {
        let ghost before = out@;
        let at: usize = order[i];
        proof {
            assert(order@.take(i + 1).drop_last() =~= order@.take(i as int));
            assert(order@.take(i + 1).last() == at);
            assert(sl[at as int] == opened_views(sealed@[at as int]@));
            assert(at < joined_names(ps@).len());
        }
        let ghost v = records_in(order@.take(i as int), ps@, *policy, domain@, now, sl)->Ok_0;
        match to_record(&ps[at], policy, domain, now, sealed[at].as_slice()) {
            Ok(d) => {
                let ghost dv = d@;
                out.push(d);
                proof {
                    assert(princ_views(out@) =~= princ_views(before).push(dv));
                    assert(front + v.push(dv) =~= (front + v).push(dv));
                }
            },
            Err(e) => {
                proof {
                    lemma_records_fail(order@, i + 1, ps@, *policy, domain@, now, sl);
                }
                return Err(e);
            },
        }
        i = i + 1;
    }
    proof {
        assert(order@.take(order@.len() as int) =~= order@);
        if found {
            let v = records_in(order@, ps@, *policy, domain@, now, sl)->Ok_0;
            assert(front + v =~= v);
        }
    }
    Ok(write_records(out.as_slice()))
}

/// The domain identifier of a dump: that in a record of `K/M` counts over all in
/// front of it, that in another record only where there is none yet, and a
/// record without one changes nothing.
pub proof fn law_master_record_names_the_domain(v: Seq<PrincView>, p: PrincView)
    ensures
        sid_of(p.tl_data).0 is None ==> domain_of(v.push(p)) == domain_of(v),
        sid_of(p.tl_data).0 is Some && "K/M@"@.is_prefix_of(p.name) ==> domain_of(v.push(p))
            == sid_of(p.tl_data).0,
        sid_of(p.tl_data).0 is Some && !"K/M@"@.is_prefix_of(p.name) ==> domain_of(v.push(p)) == (
        if domain_of(v) is Some {
            domain_of(v)
        } else {
            sid_of(p.tl_data).0
        }),
{
    assert(v.push(p).drop_last() =~= v);
}

/// In a dump `K/M` stands in front of every other name, two other names stand
/// in the order of their characters, and no name stands in front of itself.
pub proof fn law_master_name_comes_first(a: Seq<char>, b: Seq<char>)
    ensures
        a != "K/M"@ ==> comes_before("K/M"@, a) && !comes_before(a, "K/M"@),
        a != "K/M"@ && b != "K/M"@ ==> (comes_before(a, b) <==> precedes(a, b)),
        !comes_before(a, a),
        a != b ==> (comes_before(a, b) <==> !comes_before(b, a)),
{
    lemma_comes_before(a, b, a);
    lemma_comes_before(a, a, a);
}

/// The records of a dump stand in the order of its entries: there is one for
/// each, made of that entry and of what encrypting its keys gave.
pub proof fn law_each_entry_has_its_record(
    order: Seq<usize>,
    i: int,
    ps: Seq<Principal>,
    policy: Policy,
    domain: SidView,
    now: u32,
    sealed: Seq<Seq<Result<Seq<u8>, Seq<char>>>>,
)
    requires
        0 <= i < order.len(),
    ensures
        ({
            let p = order[i] as int;
            match records_in(order, ps, policy, domain, now, sealed) {
                Ok(v) => v.len() == order.len() && record_of(
                    ps[p],
                    policy,
                    domain,
                    now,
                    sealed[p],
                ) == Ok::<PrincView, Seq<char>>(v[i]),
                Err(e) => exists|k: int|
                    0 <= k < order.len() && record_of(
                        ps[#[trigger] order[k] as int],
                        policy,
                        domain,
                        now,
                        sealed[order[k] as int],
                    ) == Err::<PrincView, Seq<char>>(e),
            }
        }),
    decreases order.len(),
{
    let front = order.drop_last();
    if front.len() > 0 {
        law_each_entry_has_its_record(
            front,
            if i < front.len() {
                i
            } else {
                0
            },
            ps,
            policy,
            domain,
            now,
            sealed,
        );
    }
    let r = records_in(front, ps, policy, domain, now, sealed);
    if let Err(e) = r {
        if front.len() > 0 {
            let k = choose|k: int|
                0 <= k < front.len() && record_of(
                    ps[#[trigger] front[k] as int],
                    policy,
                    domain,
                    now,
                    sealed[front[k] as int],
                ) == Err::<PrincView, Seq<char>>(e);
            assert(order[k] == front[k]);
        }
    } else {
        assert(order[order.len() - 1] == order.last());
        if i < front.len() {
            assert(order[i] == front[i]);
        }
        if front.len() == 0 {
            assert(r->Ok_0.len() == 0);
        }
    }
}

/// A dump has a record of `K/M` that was made where no entry is `K/M`, in front
/// of the others, and only then; what encrypting the master key gave matters
/// only there.
pub proof fn law_master_record_is_made(
    order: Seq<usize>,
    realm: Seq<char>,
    ps: Seq<Principal>,
    policy: Policy,
    domain: SidView,
    etype: i32,
    now: u32,
    km_sealed: Result<Seq<u8>, Seq<char>>,
    sealed: Seq<Seq<Result<Seq<u8>, Seq<char>>>>,
)
    ensures
        ({
            let r = dump_of(order, realm, ps, policy, domain, etype, now, km_sealed, sealed);
            let named = exists|i: int|
                0 <= i < ps.len() && (#[trigger] ps[i]).name@.joined() == "K/M"@;
            match records_in(order, ps, policy, domain, now, sealed) {
                Ok(v) => {
                    &&& named ==> r == Ok::<Seq<char>, Seq<char>>(dump_text(v))
                    &&& km_sealed matches Ok(enc) ==> !named ==> r == Ok::<Seq<char>, Seq<char>>(
                        dump_text(seq![made_km(realm, etype, enc, domain, now)] + v),
                    )
                    &&& km_sealed matches Err(e) ==> !named ==> r == Err::<Seq<char>, Seq<char>>(e)
                },
                Err(e) => named || km_sealed is Ok ==> r == Err::<Seq<char>, Seq<char>>(e),
            }
        }),
{
}

/// The record of a `K/M` that is made gives no tickets and keeps its keys from
/// leaving; it has one key of the first version, without a salt, and never
/// expires.
pub proof fn law_made_master_record(
    realm: Seq<char>,
    etype: i32,
    enc: Seq<u8>,
    domain: SidView,
    now: u32,
)
    requires
        domain.subs.len() <= 255,
        domain.authority.len() == 6,
    ensures
        ({
            let p = made_km(realm, etype, enc, domain, now);
            &&& p.name == "K/M@"@ + realm
            &&& p.keys.len() == 1
            &&& p.keys[0].kvno == 1
            &&& p.keys[0].ver == 1
            &&& p.keys[0].slots.len() == 1
            &&& p.keys[0].slots[0].ty == etype
            &&& p.keys[0].slots[0].contents == enc
            &&& p.expiration == 0
            &&& p.pw_expiration == 0
            &&& p.fail_auth_count == 0
            &&& p.attributes & KDB_DISALLOW_ALL_TIX == KDB_DISALLOW_ALL_TIX
            &&& p.attributes & KDB_LOCKDOWN_KEYS == KDB_LOCKDOWN_KEYS
            &&& p.attributes & KDB_REQUIRES_PRE_AUTH == 0
            &&& sid_of(p.tl_data).0 == Some(domain)
        }),
{
    law_sid_round_trip(made_tl(realm, now, 1, true), domain, 0);
    let a: u32 = KDB_DISALLOW_ALL_TIX;
    let b: u32 = KDB_LOCKDOWN_KEYS;
    let c: u32 = KDB_REQUIRES_PRE_AUTH;
    assert((((a | b) & !c) | a) & a == a && (((a | b) & !c) | a) & b == b && (((a | b) & !c) | a)
        & c == 0) by (bit_vector)
        requires
            a == 0x40,
            b == 0x80_0000,
            c == 0x80,
    ;
}

} // verus!
