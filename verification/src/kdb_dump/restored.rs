//! What reading a dump back gives of the database that was dumped.

use crate::kdb::{entry_with, last_with, MemoryStore};
use crate::kdb_dump::database::{
    are_entries_of, domain_of, dump_of, fails_at, has_km, holds_dump, in_dump_order,
    is_dump_order, joined_names, made_km, no_database, outcomes_fit, records_in,
};
use crate::kdb_dump::entry::{
    attributes_of, is_entry_of, law_entry_round_trip, law_name_round_trip, law_sid_round_trip,
    life_of, made_tl, opened_keys, record_of, salts_match, sid_of, spec_entry, DumpErrorView,
    SidView,
};
use crate::kdb_dump::write::{dump_text, law_dump_round_trip, recordable};
use crate::kdb_dump::{spec_parse_dump, spec_realm, DumpKeyView, PrincView};
use crate::name::ascii_parts;
use crate::store::{
    key_views, KeyView, Policy, Principal, KDB_DISALLOW_ALL_TIX, KDB_REQUIRES_PRE_AUTH,
};
use crate::text::{last_position, lemma_last_position, precedes};
use vstd::prelude::*;
use vstd::string::*;

verus! {

/// A name whose written form tells its components and its realm.
pub open spec fn writable_name(parts: Seq<Seq<char>>, realm: Seq<char>) -> bool {
    &&& parts.len() > 0
    &&& forall|i: int| 0 <= i < parts.len() ==> !(#[trigger] parts[i]).contains('/')
    &&& ascii_parts(parts)
    &&& crate::text::join(parts, '/').len() > 0
    &&& realm.len() > 0
    &&& !realm.contains('@')
}

/// A dump can hold the entry: its record fits, and its keys were encrypted.
pub open spec fn dumpable(
    p: Principal,
    policy: Policy,
    domain: SidView,
    now: u32,
    sealed: Seq<Result<Seq<u8>, Seq<char>>>,
    mkey: Seq<u8>,
) -> bool {
    &&& writable_name(p.name@.components, p.realm@)
    &&& forall|i: int| 0 <= i < p.keys@.len() ==> (#[trigger] sealed[i]) is Ok
    &&& forall|i: int| 0 <= i < p.keys@.len() ==> salts_match((#[trigger] p.keys@[i])@)
    &&& p.name@.joined() == "K/M"@ && p.keys@.len() > 0 ==> p.keys@[0].key@ == mkey
    &&& record_of(p, policy, domain, now, sealed) matches Ok(d) ==> recordable(d)
}

/// Decrypting gave keys back.
pub open spec fn opens_to(opened: Seq<Result<Seq<u8>, Seq<char>>>, ks: Seq<KeyView>) -> bool {
    opened.len() == ks.len() && forall|i: int|
        0 <= i < ks.len() ==> (#[trigger] opened[i]) == Ok::<Seq<u8>, Seq<char>>(ks[i].key)
}

/// The key of a `K/M` that was made for a dump.
pub open spec fn km_keys(etype: i32, mkey: Seq<u8>) -> Seq<KeyView> {
    seq![KeyView { etype, kvno: 1, key: mkey, salt_type: None, kdb_salt: None }]
}

/// How many records stand in front of those of the entries.
pub open spec fn in_front(ps: Seq<Principal>) -> int {
    if has_km(ps) {
        0
    } else {
        1
    }
}

/// `q` holds what a dump keeps of `p`.
pub open spec fn restores(q: Principal, p: Principal, policy: Policy) -> bool {
    &&& q.name@.components == p.name@.components
    &&& q.realm@ == p.realm@
    &&& key_views(q.keys@) == key_views(p.keys@)
    &&& q.requires_preauth == p.requires_preauth
    &&& q.locked == p.locked
    &&& q.attributes == attributes_of(p.attributes, p.requires_preauth, p.locked)
    &&& q.max_life == life_of(p.max_life, policy.max_life)
    &&& q.max_renewable_life == life_of(p.max_renewable_life, policy.max_renewable_life)
    &&& q.expiration == p.expiration
    &&& q.pw_expire == p.pw_expire
    &&& q.last_success == p.last_success
    &&& q.last_failed == p.last_failed
    &&& q.fail_auth_count == p.fail_auth_count
    &&& q.db_entry_len == p.db_entry_len
    &&& q.rid == p.rid
    &&& q.e_data@ == p.e_data@
}

/// The two attribute bits that an entry keeps apart are read as they were.
proof fn lemma_attributes(a: u32, requires_preauth: bool, locked: bool)
    ensures
        (attributes_of(a, requires_preauth, locked) & KDB_REQUIRES_PRE_AUTH != 0)
            == requires_preauth,
        (attributes_of(a, requires_preauth, locked) & KDB_DISALLOW_ALL_TIX != 0) == locked,
{
    assert(((a | 0x80) | 0x40) & 0x80 != 0 && ((a | 0x80) | 0x40) & 0x40 != 0) by (bit_vector);
    assert(((a | 0x80) & !0x40) & 0x80 != 0 && ((a | 0x80) & !0x40) & 0x40 == 0) by (bit_vector);
    assert(((a & !0x80) | 0x40) & 0x80 == 0 && ((a & !0x80) | 0x40) & 0x40 != 0) by (bit_vector);
    assert(((a & !0x80) & !0x40) & 0x80 == 0 && ((a & !0x80) & !0x40) & 0x40 == 0) by (bit_vector);
}

/// An order of entries names each of them.
proof fn lemma_order_covers(order: Seq<usize>, names: Seq<Seq<char>>, i: int)
    requires
        is_dump_order(order, names),
        0 <= i < names.len(),
    ensures
        exists|k: int| 0 <= k < order.len() && #[trigger] order[k] == i,
{
    let places = order.map_values(|x: usize| x as int);
    assert forall|a: int, b: int| 0 <= a < places.len() && 0 <= b < places.len() && a != b implies
        places[a] != places[b] by {
        if places[a] == places[b] {
            let (lo, hi) = if a < b {
                (a, b)
            } else {
                (b, a)
            };
            assert(in_dump_order(names, order[lo], order[hi]));
            let n = names[order[lo] as int];
            if precedes(n, n) {
                crate::text::lemma_precedes_asymmetric(n, n);
            }
        }
    }
    assert(places.no_duplicates());
    places.unique_seq_to_set();
    let all = vstd::set_lib::set_int_range(0, names.len() as int);
    vstd::set_lib::lemma_int_range(0, names.len() as int);
    assert(places.to_set().subset_of(all)) by {
        assert forall|x: int| places.to_set().contains(x) implies all.contains(x) by {
            let k = choose|k: int| 0 <= k < places.len() && places[k] == x;
            assert(places[k] == order[k] as int);
        }
    }
    vstd::seq_lib::seq_to_set_is_finite(places);
    vstd::set_lib::lemma_subset_equality(places.to_set(), all);
    assert(places.to_set().contains(i));
    let k = choose|k: int| 0 <= k < places.len() && places[k] == i;
    assert(order[k] == i);
}

/// The records of entries that can be dumped.
proof fn lemma_records(
    order: Seq<usize>,
    ps: Seq<Principal>,
    policy: Policy,
    domain: SidView,
    now: u32,
    sealed: Seq<Seq<Result<Seq<u8>, Seq<char>>>>,
)
    requires
        forall|k: int| 0 <= k < order.len() ==> (#[trigger] order[k]) < ps.len(),
        forall|i: int|
            0 <= i < ps.len() ==> record_of(#[trigger] ps[i], policy, domain, now, sealed[i]) is Ok,
    ensures
        records_in(order, ps, policy, domain, now, sealed) matches Ok(v) && v.len() == order.len()
            && forall|k: int|
            0 <= k < order.len() ==> record_of(
                ps[order[k] as int],
                policy,
                domain,
                now,
                sealed[order[k] as int],
            ) == Ok::<PrincView, Seq<char>>(#[trigger] v[k]),
    decreases order.len(),
{
    if order.len() > 0 {
        let front = order.drop_last();
        assert forall|k: int| 0 <= k < front.len() implies (#[trigger] front[k]) < ps.len() by {
            assert(front[k] == order[k]);
        }
        lemma_records(front, ps, policy, domain, now, sealed);
        let i = order.last() as int;
        assert(order[order.len() - 1] < ps.len());
        assert(record_of(ps[i], policy, domain, now, sealed[i]) is Ok);
        let before = records_in(front, ps, policy, domain, now, sealed)->Ok_0;
        let v = records_in(order, ps, policy, domain, now, sealed)->Ok_0;
        assert forall|k: int| 0 <= k < order.len() implies record_of(
            ps[order[k] as int],
            policy,
            domain,
            now,
            sealed[order[k] as int],
        ) == Ok::<PrincView, Seq<char>>(#[trigger] v[k]) by {
            if k < front.len() {
                assert(v[k] == before[k]);
                assert(front[k] == order[k]);
            }
        }
    }
}

/// Where each record holds a domain identifier, that is the dump's.
proof fn lemma_domain(v: Seq<PrincView>, domain: SidView)
    requires
        v.len() > 0,
        forall|k: int| 0 <= k < v.len() ==> sid_of((#[trigger] v[k]).tl_data).0 == Some(domain),
    ensures
        domain_of(v) == Some(domain),
    decreases v.len(),
{
    assert(sid_of(v[v.len() - 1].tl_data).0 == Some(domain));
    let front = v.drop_last();
    if front.len() > 0 {
        assert forall|k: int| 0 <= k < front.len() implies sid_of((#[trigger] front[k]).tl_data).0
            == Some(domain) by {
            assert(front[k] == v[k]);
        }
        lemma_domain(front, domain);
    } else {
        assert(domain_of(front) is None);
    }
}

/// Of entries with different ids, that with an id is the last with it.
proof fn lemma_only_one(qs: Seq<Principal>, k: int)
    requires
        0 <= k < qs.len(),
        forall|a: int, b: int|
            0 <= a < b < qs.len() ==> (#[trigger] qs[a]).spec_id() != (#[trigger] qs[b]).spec_id(),
    ensures
        last_with(qs, qs[k].spec_id()) == Some(qs[k]),
    decreases qs.len(),
{
    if k < qs.len() - 1 {
        let front = qs.drop_last();
        assert(front[k] == qs[k]);
        assert(qs[k].spec_id() != qs[qs.len() - 1].spec_id());
        assert forall|a: int, b: int| 0 <= a < b < front.len() implies (
        #[trigger] front[a]).spec_id() != (#[trigger] front[b]).spec_id() by {
            assert(front[a] == qs[a] && front[b] == qs[b]);
        }
        lemma_only_one(front, k);
    }
}

/// The record of a `K/M` that was made is read.
proof fn lemma_km_read(
    realm: Seq<char>,
    etype: i32,
    enc: Seq<u8>,
    domain: SidView,
    now: u32,
    opened: Seq<Result<Seq<u8>, Seq<char>>>,
    mkey: Seq<u8>,
    refusal: Seq<char>,
)
    requires
        realm.len() > 0,
        !realm.contains('@'),
        domain.subs.len() <= 255,
        domain.authority.len() == 6,
        opens_to(opened, km_keys(etype, mkey)),
    ensures
        spec_entry(made_km(realm, etype, enc, domain, now), opened, mkey, refusal) matches Ok(t)
            && t.0.joined() == "K/M"@ && t.1 == realm,
        sid_of(made_km(realm, etype, enc, domain, now).tl_data).0 == Some(domain),
{
    let d = made_km(realm, etype, enc, domain, now);
    let parts = seq!["K"@, "M"@];
    reveal_strlit("K");
    reveal_strlit("M");
    reveal_strlit("K/M");
    reveal_strlit("K/M@");
    assert(parts.drop_last() =~= seq!["K"@]);
    reveal_with_fuel(crate::text::join, 3);
    assert(crate::text::join(parts, '/') =~= "K/M"@);
    law_name_round_trip(parts, realm, refusal);
    assert(d.name =~= "K/M"@.push('@') + realm);
    law_sid_round_trip(made_tl(realm, now, 1, true), domain, 0);
    reveal_with_fuel(opened_keys, 2);
    assert(d.keys.drop_last() =~= Seq::<DumpKeyView>::empty());
    assert(opened[0] == Ok::<Seq<u8>, Seq<char>>(km_keys(etype, mkey)[0].key));
}

/// The entry that a record gives holds what a dump keeps of the one that it
/// was made of.
proof fn lemma_entry_restored(
    q: Principal,
    p: Principal,
    policy: Policy,
    domain: SidView,
    now: u32,
    sealed: Seq<Result<Seq<u8>, Seq<char>>>,
    opened: Seq<Result<Seq<u8>, Seq<char>>>,
    mkey: Seq<u8>,
    refusal: Seq<char>,
)
    requires
        dumpable(p, policy, domain, now, sealed, mkey),
        domain.subs.len() <= 255,
        domain.authority.len() == 6,
        opens_to(opened, key_views(p.keys@)),
    ensures
        record_of(p, policy, domain, now, sealed) matches Ok(d) && recordable(d) && d.name
            == p.spec_id() && d.keys.len() == opened.len() && sid_of(d.tl_data).0 == Some(domain)
            && (spec_entry(d, opened, mkey, refusal) matches Ok(t) && t.0.joined()
            == p.name@.joined() && t.1 == p.realm@ && (is_entry_of(q, d, t.0, t.1, t.2)
            ==> restores(q, p, policy) && q.spec_id() == p.spec_id())),
{
    let ks = key_views(p.keys@);
    assert forall|i: int| 0 <= i < p.keys@.len() implies (#[trigger] opened[i]) == Ok::<
        Seq<u8>,
        Seq<char>,
    >(p.keys@[i].key@) by {
        assert(ks[i] == p.keys@[i]@);
    }
    law_entry_round_trip(p, policy, domain, now, sealed, opened, mkey, refusal);
    lemma_attributes(p.attributes, p.requires_preauth, p.locked);
    assert forall|i: int| 0 <= i < ks.len() implies salts_match(#[trigger] ks[i]) by {
        assert(ks[i] == p.keys@[i]@);
    }
    crate::kdb_dump::entry::law_keys_round_trip(ks, sealed, opened, p.spec_id());
}

/// What a database has to be for a dump of it to be read back.
pub open spec fn store_dumpable(
    realm: Seq<char>,
    ps: Seq<Principal>,
    policy: Policy,
    domain: SidView,
    etype: i32,
    now: u32,
    km_sealed: Result<Seq<u8>, Seq<char>>,
    sealed: Seq<Seq<Result<Seq<u8>, Seq<char>>>>,
    mkey: Seq<u8>,
) -> bool {
    &&& realm.len() > 0
    &&& !realm.contains('@')
    &&& domain.subs.len() <= 255
    &&& domain.authority.len() == 6
    &&& forall|i: int| 0 <= i < ps.len() ==> (#[trigger] ps[i]).realm@ == realm
    &&& forall|i: int|
        0 <= i < ps.len() ==> dumpable(#[trigger] ps[i], policy, domain, now, sealed[i], mkey)
    &&& forall|i: int, j: int|
        0 <= i < j < ps.len() ==> (#[trigger] ps[i]).spec_id() != (#[trigger] ps[j]).spec_id()
    &&& !has_km(ps) ==> (km_sealed matches Ok(enc) && recordable(
        made_km(realm, etype, enc, domain, now),
    ))
}

/// Decrypting the keys of a dump gives what they were, in the order of its
/// records.
pub open spec fn store_opens(
    order: Seq<usize>,
    ps: Seq<Principal>,
    etype: i32,
    mkey: Seq<u8>,
    opened: Seq<Seq<Result<Seq<u8>, Seq<char>>>>,
) -> bool {
    &&& opened.len() == in_front(ps) + ps.len()
    &&& !has_km(ps) ==> opens_to(opened[0], km_keys(etype, mkey))
    &&& forall|k: int|
        0 <= k < order.len() ==> opens_to(
            opened[in_front(ps) + k],
            key_views(ps[(#[trigger] order[k]) as int].keys@),
        )
}

/// The records of a dump: their number, and what each is.
proof fn lemma_dump_records(
    order: Seq<usize>,
    realm: Seq<char>,
    ps: Seq<Principal>,
    policy: Policy,
    domain: SidView,
    etype: i32,
    now: u32,
    km_sealed: Result<Seq<u8>, Seq<char>>,
    sealed: Seq<Seq<Result<Seq<u8>, Seq<char>>>>,
    mkey: Seq<u8>,
    opened: Seq<Seq<Result<Seq<u8>, Seq<char>>>>,
    refusal: Seq<char>,
) -> (v: Seq<PrincView>)
    requires
        is_dump_order(order, joined_names(ps)),
        store_dumpable(realm, ps, policy, domain, etype, now, km_sealed, sealed, mkey),
        store_opens(order, ps, etype, mkey, opened),
    ensures
        dump_of(order, realm, ps, policy, domain, etype, now, km_sealed, sealed) == Ok::<
            Seq<char>,
            Seq<char>,
        >(dump_text(v)),
        v.len() == opened.len(),
        v.len() > 0,
        !has_km(ps) ==> v[0] == made_km(realm, etype, km_sealed->Ok_0, domain, now),
        forall|k: int|
            0 <= k < order.len() ==> record_of(
                ps[(#[trigger] order[k]) as int],
                policy,
                domain,
                now,
                sealed[order[k] as int],
            ) == Ok::<PrincView, Seq<char>>(v[in_front(ps) + k]),
{
    assert forall|i: int| 0 <= i < ps.len() implies record_of(
        #[trigger] ps[i],
        policy,
        domain,
        now,
        sealed[i],
    ) is Ok by {
        lemma_order_covers(order, joined_names(ps), i);
        let k = choose|k: int| 0 <= k < order.len() && #[trigger] order[k] == i;
        assert(opens_to(opened[in_front(ps) + k], key_views(ps[order[k] as int].keys@)));
        lemma_entry_restored(
            ps[i],
            ps[i],
            policy,
            domain,
            now,
            sealed[i],
            opened[in_front(ps) + k],
            mkey,
            refusal,
        );
    }
    lemma_records(order, ps, policy, domain, now, sealed);
    let w = records_in(order, ps, policy, domain, now, sealed)->Ok_0;
    let v = if has_km(ps) {
        w
    } else {
        seq![made_km(realm, etype, km_sealed->Ok_0, domain, now)] + w
    };
    assert forall|k: int| 0 <= k < order.len() implies record_of(
        ps[(#[trigger] order[k]) as int],
        policy,
        domain,
        now,
        sealed[order[k] as int],
    ) == Ok::<PrincView, Seq<char>>(v[in_front(ps) + k]) by {
        assert(v[in_front(ps) + k] == w[k]);
    }
    if has_km(ps) {
        let i = choose|i: int| 0 <= i < ps.len() && (#[trigger] ps[i]).name@.joined() == "K/M"@;
        assert(order.len() > 0);
    }
    v
}

/// Each record of a dump can be written and is read, with its domain
/// identifier.
proof fn lemma_record_read(
    order: Seq<usize>,
    realm: Seq<char>,
    ps: Seq<Principal>,
    policy: Policy,
    domain: SidView,
    etype: i32,
    now: u32,
    km_sealed: Result<Seq<u8>, Seq<char>>,
    sealed: Seq<Seq<Result<Seq<u8>, Seq<char>>>>,
    mkey: Seq<u8>,
    opened: Seq<Seq<Result<Seq<u8>, Seq<char>>>>,
    refusal: Seq<char>,
    v: Seq<PrincView>,
    k: int,
)
    requires
        is_dump_order(order, joined_names(ps)),
        store_dumpable(realm, ps, policy, domain, etype, now, km_sealed, sealed, mkey),
        store_opens(order, ps, etype, mkey, opened),
        v.len() == opened.len(),
        !has_km(ps) ==> v[0] == made_km(realm, etype, km_sealed->Ok_0, domain, now),
        forall|k: int|
            0 <= k < order.len() ==> record_of(
                ps[(#[trigger] order[k]) as int],
                policy,
                domain,
                now,
                sealed[order[k] as int],
            ) == Ok::<PrincView, Seq<char>>(v[in_front(ps) + k]),
        0 <= k < v.len(),
    ensures
        recordable(v[k]),
        v[k].keys.len() == opened[k].len(),
        sid_of(v[k].tl_data).0 == Some(domain),
        k < in_front(ps) ==> v[k].name == "K/M"@.push('@') + realm,
        k >= in_front(ps) ==> v[k].name == ps[order[k - in_front(ps)] as int].spec_id(),
        spec_entry(v[k], opened[k], mkey, refusal) matches Ok(t) && t.1 == realm
            && t.0.joined().push('@') + realm == v[k].name,
{
    if k < in_front(ps) {
        lemma_km_read(realm, etype, km_sealed->Ok_0, domain, now, opened[0], mkey, refusal);
        reveal_strlit("K/M");
        reveal_strlit("K/M@");
        assert("K/M@"@ + realm =~= "K/M"@.push('@') + realm);
    } else {
        let at = k - in_front(ps);
        let i = order[at] as int;
        assert(i < joined_names(ps).len());
        let p = ps[i];
        assert(dumpable(p, policy, domain, now, sealed[i], mkey));
        lemma_entry_restored(
            p,
            p,
            policy,
            domain,
            now,
            sealed[i],
            opened[k],
            mkey,
            refusal,
        );
    }
}

/// The realm of a written name.
proof fn lemma_realm_of(left: Seq<char>, realm: Seq<char>)
    requires
        realm.len() > 0,
        !realm.contains('@'),
    ensures
        last_position(left.push('@') + realm, '@') == left.len(),
        (left.push('@') + realm).skip(left.len() as int + 1) == realm,
{
    let s = left.push('@') + realm;
    lemma_last_position(s, '@');
    let at = last_position(s, '@');
    assert(s[left.len() as int] == '@');
    if at > left.len() {
        assert(s[at] == realm[at - left.len() - 1]);
        assert(realm.contains('@'));
    }
    assert(s.skip(left.len() as int + 1) =~= realm);
}

/// No two records of a dump have one name.
proof fn lemma_names_differ(
    order: Seq<usize>,
    realm: Seq<char>,
    ps: Seq<Principal>,
    policy: Policy,
    domain: SidView,
    etype: i32,
    now: u32,
    km_sealed: Result<Seq<u8>, Seq<char>>,
    sealed: Seq<Seq<Result<Seq<u8>, Seq<char>>>>,
    mkey: Seq<u8>,
    opened: Seq<Seq<Result<Seq<u8>, Seq<char>>>>,
    refusal: Seq<char>,
    v: Seq<PrincView>,
    a: int,
    b: int,
)
    requires
        is_dump_order(order, joined_names(ps)),
        store_dumpable(realm, ps, policy, domain, etype, now, km_sealed, sealed, mkey),
        store_opens(order, ps, etype, mkey, opened),
        v.len() == opened.len(),
        !has_km(ps) ==> v[0] == made_km(realm, etype, km_sealed->Ok_0, domain, now),
        forall|k: int|
            0 <= k < order.len() ==> record_of(
                ps[(#[trigger] order[k]) as int],
                policy,
                domain,
                now,
                sealed[order[k] as int],
            ) == Ok::<PrincView, Seq<char>>(v[in_front(ps) + k]),
        0 <= a < b < v.len(),
    ensures
        v[a].name != v[b].name,
{
    lemma_record_read(
        order, realm, ps, policy, domain, etype, now, km_sealed, sealed, mkey, opened, refusal, v,
        a,
    );
    lemma_record_read(
        order, realm, ps, policy, domain, etype, now, km_sealed, sealed, mkey, opened, refusal, v,
        b,
    );
    let names = joined_names(ps);
    let front = in_front(ps);
    let j = order[b - front] as int;
    assert(order[b - front] < names.len());
    if a < front {
        let left = ps[j].name@.joined();
        assert(ps[j].realm@ == realm);
        if v[a].name == v[b].name {
            let s = left.push('@') + realm;
            let km = "K/M"@.push('@') + realm;
            assert(left.len() == "K/M"@.len());
            assert(s.take(left.len() as int) =~= left);
            assert(km.take(left.len() as int) =~= "K/M"@);
            assert(has_km(ps));
        }
    } else {
        let i = order[a - front] as int;
        assert(order[a - front] < names.len());
        assert(in_dump_order(names, order[a - front], order[b - front]));
        if i == j && precedes(names[i], names[i]) {
            crate::text::lemma_precedes_asymmetric(names[i], names[i]);
        }
        if i < j {
            assert(ps[i].spec_id() != ps[j].spec_id());
        } else {
            assert(ps[j].spec_id() != ps[i].spec_id());
        }
    }
}

/// A database that was dumped is read back: the text is a dump, of the same
/// realm and domain; it gives a database; and an entry of that database, found
/// by the id of one that was dumped, holds what a dump keeps of it.
pub proof fn law_store_round_trip(
    order: Seq<usize>,
    realm: Seq<char>,
    ps: Seq<Principal>,
    policy: Policy,
    domain: SidView,
    etype: i32,
    now: u32,
    km_sealed: Result<Seq<u8>, Seq<char>>,
    sealed: Seq<Seq<Result<Seq<u8>, Seq<char>>>>,
    mkey: Seq<u8>,
    opened: Seq<Seq<Result<Seq<u8>, Seq<char>>>>,
    refusal: Seq<char>,
    s: MemoryStore,
    i: int,
)
    requires
        is_dump_order(order, joined_names(ps)),
        store_dumpable(realm, ps, policy, domain, etype, now, km_sealed, sealed, mkey),
        store_opens(order, ps, etype, mkey, opened),
        0 <= i < ps.len(),
    ensures
        dump_of(order, realm, ps, policy, domain, etype, now, km_sealed, sealed) matches Ok(text)
            && spec_parse_dump(text) matches Ok(f) && {
            &&& outcomes_fit(f.princs, opened)
            &&& spec_realm(f) == Ok::<Seq<char>, Seq<char>>(realm)
            &&& domain_of(f.princs) == Some(domain)
            &&& forall|e: DumpErrorView| !no_database(e, f, opened, mkey, refusal)
            &&& holds_dump(s, f, opened, mkey, refusal, policy) ==> (entry_with(
                s.principals(),
                ps[i].spec_id(),
            ) matches Some(q) && restores(q, ps[i], policy))
        },
{
    let v = lemma_dump_records(
        order,
        realm,
        ps,
        policy,
        domain,
        etype,
        now,
        km_sealed,
        sealed,
        mkey,
        opened,
        refusal,
    );
    let front = in_front(ps);
    assert forall|k: int| 0 <= k < v.len() implies recordable(#[trigger] v[k]) && v[k].keys.len()
        == opened[k].len() && sid_of(v[k].tl_data).0 == Some(domain) && (spec_entry(
        v[k],
        opened[k],
        mkey,
        refusal,
    ) matches Ok(t) && t.1 == realm && t.0.joined().push('@') + realm == v[k].name) by {
        lemma_record_read(
            order,
            realm,
            ps,
            policy,
            domain,
            etype,
            now,
            km_sealed,
            sealed,
            mkey,
            opened,
            refusal,
            v,
            k,
        );
    }
    law_dump_round_trip(v);
    let f = spec_parse_dump(dump_text(v))->Ok_0;
    lemma_domain(v, domain);
    assert(spec_realm(f) == Ok::<Seq<char>, Seq<char>>(realm)) by {
        let t = spec_entry(v[0], opened[0], mkey, refusal)->Ok_0;
        lemma_realm_of(t.0.joined(), realm);
    }
    assert forall|e: DumpErrorView| !no_database(e, f, opened, mkey, refusal) by {
        if no_database(e, f, opened, mkey, refusal) {
            let k = choose|k: int| fails_at(k, e, f.princs, opened, mkey, refusal);
            assert(spec_entry(v[k], opened[k], mkey, refusal) is Ok);
        }
    }
    if holds_dump(s, f, opened, mkey, refusal, policy) {
        let qs = choose|qs: Seq<Principal>|
            #![trigger are_entries_of(qs, f.princs, opened, mkey, refusal)]
            are_entries_of(qs, f.princs, opened, mkey, refusal) && forall|id: Seq<char>| #[trigger]
                entry_with(s.principals(), id) == last_with(qs, id);
        assert forall|k: int| 0 <= k < qs.len() implies (#[trigger] qs[k]).spec_id()
            == v[k].name by {
            let t = spec_entry(v[k], opened[k], mkey, refusal)->Ok_0;
            assert(is_entry_of(qs[k], v[k], t.0, t.1, t.2));
        }
        assert forall|a: int, b: int| 0 <= a < b < qs.len() implies (#[trigger] qs[a]).spec_id()
            != (#[trigger] qs[b]).spec_id() by {
            lemma_names_differ(
                order,
                realm,
                ps,
                policy,
                domain,
                etype,
                now,
                km_sealed,
                sealed,
                mkey,
                opened,
                refusal,
                v,
                a,
                b,
            );
        }
        lemma_order_covers(order, joined_names(ps), i);
        let at = choose|k: int| 0 <= k < order.len() && #[trigger] order[k] == i;
        let k = front + at;
        assert(order[at] == i);
        assert(dumpable(ps[i], policy, domain, now, sealed[i], mkey));
        lemma_entry_restored(
            qs[k],
            ps[i],
            policy,
            domain,
            now,
            sealed[i],
            opened[k],
            mkey,
            refusal,
        );
        let t = spec_entry(v[k], opened[k], mkey, refusal)->Ok_0;
        assert(is_entry_of(qs[k], v[k], t.0, t.1, t.2));
        lemma_only_one(qs, k);
        assert(entry_with(s.principals(), ps[i].spec_id()) == Some(qs[k]));
    }
}

/// An entry that is found by an id has that id, and is one of the list.
proof fn lemma_last_with(qs: Seq<Principal>, id: Seq<char>) -> (k: int)
    requires
        last_with(qs, id) is Some,
    ensures
        0 <= k < qs.len(),
        qs[k].spec_id() == id,
    decreases qs.len(),
{
    if qs.last().spec_id() == id {
        qs.len() - 1
    } else {
        lemma_last_with(qs.drop_last(), id)
    }
}

/// A database that is read back from a dump holds no entry that was not dumped,
/// but that of the master key.
pub proof fn law_round_trip_adds_master_only(
    order: Seq<usize>,
    realm: Seq<char>,
    ps: Seq<Principal>,
    policy: Policy,
    domain: SidView,
    etype: i32,
    now: u32,
    km_sealed: Result<Seq<u8>, Seq<char>>,
    sealed: Seq<Seq<Result<Seq<u8>, Seq<char>>>>,
    mkey: Seq<u8>,
    opened: Seq<Seq<Result<Seq<u8>, Seq<char>>>>,
    refusal: Seq<char>,
    s: MemoryStore,
    id: Seq<char>,
)
    requires
        is_dump_order(order, joined_names(ps)),
        store_dumpable(realm, ps, policy, domain, etype, now, km_sealed, sealed, mkey),
        store_opens(order, ps, etype, mkey, opened),
        dump_of(order, realm, ps, policy, domain, etype, now, km_sealed, sealed) matches Ok(text)
            && spec_parse_dump(text) matches Ok(f) && holds_dump(
            s,
            f,
            opened,
            mkey,
            refusal,
            policy,
        ),
        entry_with(s.principals(), id) is Some,
    ensures
        id == "K/M"@.push('@') + realm || exists|i: int|
            0 <= i < ps.len() && (#[trigger] ps[i]).spec_id() == id,
{
    let v = lemma_dump_records(
        order,
        realm,
        ps,
        policy,
        domain,
        etype,
        now,
        km_sealed,
        sealed,
        mkey,
        opened,
        refusal,
    );
    assert forall|k: int| 0 <= k < v.len() implies recordable(#[trigger] v[k]) by {
        lemma_record_read(
            order, realm, ps, policy, domain, etype, now, km_sealed, sealed, mkey, opened,
            refusal, v, k,
        );
    }
    law_dump_round_trip(v);
    let f = spec_parse_dump(dump_text(v))->Ok_0;
    let qs = choose|qs: Seq<Principal>|
        #![trigger are_entries_of(qs, f.princs, opened, mkey, refusal)]
        are_entries_of(qs, f.princs, opened, mkey, refusal) && forall|x: Seq<char>| #[trigger]
            entry_with(s.principals(), x) == last_with(qs, x);
    assert(entry_with(s.principals(), id) == last_with(qs, id));
    let k = lemma_last_with(qs, id);
    lemma_record_read(
        order, realm, ps, policy, domain, etype, now, km_sealed, sealed, mkey, opened, refusal, v,
        k,
    );
    let t = spec_entry(v[k], opened[k], mkey, refusal)->Ok_0;
    assert(is_entry_of(qs[k], v[k], t.0, t.1, t.2));
    assert(qs[k].spec_id() == v[k].name);
    if k >= in_front(ps) {
        let i = order[k - in_front(ps)] as int;
        assert(order[k - in_front(ps)] < joined_names(ps).len());
        assert(ps[i].spec_id() == id);
    }
}

/// An entry read back from a dump has each attribute bit of the entry that was
/// dumped but the two that an entry keeps apart, and no other such bit; those two
/// follow what the entry says.
pub proof fn law_restored_attributes(q: Principal, p: Principal, policy: Policy, b: u32)
    requires
        restores(q, p, policy),
    ensures
        b & KDB_REQUIRES_PRE_AUTH == 0 && b & KDB_DISALLOW_ALL_TIX == 0 ==> q.attributes & b
            == p.attributes & b,
        (q.attributes & KDB_REQUIRES_PRE_AUTH != 0) == p.requires_preauth,
        (q.attributes & KDB_DISALLOW_ALL_TIX != 0) == p.locked,
        p.expiration == q.expiration,
        p.pw_expire == q.pw_expire,
        p.last_success == q.last_success,
        p.last_failed == q.last_failed,
        p.fail_auth_count == q.fail_auth_count,
        p.rid == q.rid,
        p.name@.components == q.name@.components,
        p.realm@ == q.realm@,
        key_views(p.keys@) == key_views(q.keys@),
        0 < p.max_life <= u32::MAX ==> q.max_life == p.max_life,
        0 < p.max_renewable_life <= u32::MAX ==> q.max_renewable_life == p.max_renewable_life,
{
    let a = p.attributes;
    lemma_attributes(a, p.requires_preauth, p.locked);
    assert(b & 0x80 == 0 && b & 0x40 == 0 ==> {
        &&& ((a | 0x80) | 0x40) & b == a & b
        &&& ((a | 0x80) & !0x40) & b == a & b
        &&& ((a & !0x80) | 0x40) & b == a & b
        &&& ((a & !0x80) & !0x40) & b == a & b
    }) by (bit_vector);
}

} // verus!
