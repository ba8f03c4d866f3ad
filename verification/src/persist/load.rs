//! Loading a database: which format its file has, under which key it is
//! opened, and what its log says.

use crate::bytes::copy_range;
use crate::persist::plain::{PlainDb, PlainEntry, SidTrailer};
use crate::persist::ulog::{load_ulog, spec_load_ulog, ulog_views, UlogEntry, UlogView};
use crate::persist::{
    contents, is_dump, kdb_format, Contents, PersistError, PersistErrorView, STASH_ETYPES,
};
use crate::store::Principal;
use crate::text::str_eq;
use vstd::prelude::*;
use vstd::string::*;
use vstd::utf8::{decode_utf8, valid_utf8};

verus! {

/// `load` gave `d` for a dump under a stashed key of a type.
pub open spec fn dump_loaded<T, L: Fn(i32, &Vec<u8>, &str) -> Option<T>>(
    load: L,
    etype: i32,
    stash: Vec<u8>,
    text: Seq<char>,
    d: Option<T>,
) -> bool {
    exists|t: &str| t@ == text && #[trigger] call_ensures(load, (etype, &stash, t), d)
}

/// What loading a dump comes to: the stashed key is tried as a key of each
/// type, in order.
pub open spec fn dump_result<T, L: Fn(i32, &Vec<u8>, &str) -> Option<T>>(
    stash: Vec<u8>,
    text: Seq<char>,
    load: L,
    r: Result<T, PersistErrorView>,
) -> bool {
    ||| exists|s: T| #[trigger]
        dump_loaded(load, STASH_ETYPES@[0], stash, text, Some(s)) && r == Ok::<T, PersistErrorView>(
            s,
        )
    ||| dump_loaded(load, STASH_ETYPES@[0], stash, text, None) && exists|d: Option<T>| #[trigger]
        dump_loaded(load, STASH_ETYPES@[1], stash, text, d) && r == (match d {
            Some(s) => Ok::<T, PersistErrorView>(s),
            None => Err::<T, PersistErrorView>(
                PersistErrorView::Crypto("stash master key did not decrypt dump key_data"@),
            ),
        })
}

/// `open` gave `p` for the encrypted list in a file.
pub open spec fn list_opened<O: Fn(&Vec<u8>, &Vec<u8>) -> Result<Vec<u8>, PersistError>>(
    open: O,
    stash: Vec<u8>,
    cipher: Seq<u8>,
    p: Result<Vec<u8>, PersistError>,
) -> bool {
    exists|c: Vec<u8>| c@ == cipher && #[trigger] call_ensures(open, (&stash, &c), p)
}

/// `list` gave `l` for a list of a format.
pub open spec fn list_read<T, P: Fn(&Vec<u8>, bool, bool) -> Result<T, PersistError>>(
    list: P,
    plain: Vec<u8>,
    format: u8,
    l: Result<T, PersistError>,
) -> bool {
    call_ensures(list, (&plain, format == 2, format == 3), l)
}

/// What loading an encrypted list comes to: it stands behind the four octets
/// that name its format.
pub open spec fn list_result<
    T,
    O: Fn(&Vec<u8>, &Vec<u8>) -> Result<Vec<u8>, PersistError>,
    P: Fn(&Vec<u8>, bool, bool) -> Result<T, PersistError>,
>(stash: Vec<u8>, blob: Seq<u8>, open: O, list: P, r: Result<T, PersistErrorView>) -> bool {
    exists|p: Result<Vec<u8>, PersistError>|
        {
            &&& #[trigger] list_opened(open, stash, blob.skip(4), p)
            &&& match p {
                Err(e) => r == Err::<T, PersistErrorView>(e@),
                Ok(plain) => exists|l: Result<T, PersistError>|
                    {
                        &&& #[trigger] list_read(list, plain, kdb_format(blob)->0, l)
                        &&& r == result_view(l)
                    },
            }
        }
}

/// A result with its error by its view.
pub open spec fn result_view<T>(r: Result<T, PersistError>) -> Result<T, PersistErrorView> {
    match r {
        Ok(v) => Ok(v),
        Err(e) => Err(e@),
    }
}

/// What loading the entries of a database file comes to.
pub open spec fn entries_result<
    T,
    L: Fn(i32, &Vec<u8>, &str) -> Option<T>,
    O: Fn(&Vec<u8>, &Vec<u8>) -> Result<Vec<u8>, PersistError>,
    P: Fn(&Vec<u8>, bool, bool) -> Result<T, PersistError>,
>(
    stash: Vec<u8>,
    blob: Seq<u8>,
    load: L,
    open: O,
    list: P,
    r: Result<T, PersistErrorView>,
) -> bool {
    if is_dump(blob) {
        if !valid_utf8(blob) {
            r == Err::<T, PersistErrorView>(PersistErrorView::Format("dump is not utf-8"@))
        } else {
            dump_result(stash, decode_utf8(blob), load, r)
        }
    } else if kdb_format(blob) is Some {
        list_result(stash, blob, open, list, r)
    } else {
        r == Err::<T, PersistErrorView>(
            PersistErrorView::Format(
                if blob.len() < 4 {
                    "missing KDB magic"@
                } else {
                    "missing dump header or KDB1/KDB2/KDB3 magic"@
                },
            ),
        )
    }
}

/// What the log of a database says, where there is one.
pub open spec fn log_result(log: Option<&str>) -> Result<Seq<UlogView>, PersistErrorView> {
    match log {
        None => Ok(Seq::empty()),
        Some(t) => match spec_load_ulog(t@) {
            Ok(v) => Ok(v),
            Err(m) => Err(PersistErrorView::Format(m)),
        },
    }
}

/// What loading a database comes to: `s` is what its entries came to.
pub open spec fn loaded_result<T>(
    s: Result<T, PersistErrorView>,
    log: Option<&str>,
    r: Result<(T, Vec<UlogEntry>), PersistError>,
) -> bool {
    match s {
        Err(e) => r matches Err(x) && x@ == e,
        Ok(v) => match log_result(log) {
            Err(e) => r matches Err(x) && x@ == e,
            Ok(es) => r matches Ok(t) && t.0 == v && ulog_views(t.1@) == es,
        },
    }
}

/// Loads a dump.
fn load_with_stash<T, L: Fn(i32, &Vec<u8>, &str) -> Option<T>>(
    stash: &Vec<u8>,
    text: &str,
    load: &L,
) -> (r: Result<T, PersistError>)
    requires
        forall|e: i32, s: Vec<u8>, t: &str| #[trigger] call_requires(*load, (e, &s, t)),
    ensures
        dump_result(*stash, text@, *load, result_view(r)),
{
    let first = load(STASH_ETYPES[0], stash, text);
    assert(dump_loaded(*load, STASH_ETYPES@[0], *stash, text@, first));
    match first {
        Some(s) => Ok(s),
        None => {
            let second = load(STASH_ETYPES[1], stash, text);
            assert(dump_loaded(*load, STASH_ETYPES@[1], *stash, text@, second));
            match second {
                Some(s) => Ok(s),
                None => Err(
                    PersistError::Crypto(
                        "stash master key did not decrypt dump key_data".to_owned(),
                    ),
                ),
            }
        },
    }
}

/// Loads an encrypted list.
fn load_kdb_blob<
    T,
    O: Fn(&Vec<u8>, &Vec<u8>) -> Result<Vec<u8>, PersistError>,
    P: Fn(&Vec<u8>, bool, bool) -> Result<T, PersistError>,
>(stash: &Vec<u8>, blob: &[u8], v2: bool, v3: bool, open: &O, list: &P) -> (r: Result<
    T,
    PersistError,
>)
    requires
        kdb_format(blob@) is Some,
        v2 == (kdb_format(blob@)->0 == 2),
        v3 == (kdb_format(blob@)->0 == 3),
        forall|s: Vec<u8>, c: Vec<u8>| #[trigger] call_requires(*open, (&s, &c)),
        forall|p: Vec<u8>, a: bool, b: bool| #[trigger] call_requires(*list, (&p, a, b)),
    ensures
        list_result(*stash, blob@, *open, *list, result_view(r)),
{
    let cipher = copy_range(blob, 4, blob.len());
    assert(cipher@ =~= blob@.skip(4));
    let p = open(stash, &cipher);
    assert(list_opened(*open, *stash, blob@.skip(4), p));
    match p {
        Err(e) => Err(e),
        Ok(plain) => {
            let l = list(&plain, v2, v3);
            assert(list_read(*list, plain, kdb_format(blob@)->0, l));
            l
        },
    }
}

/// Loads the entries of a database file.
fn load_entries<
    T,
    L: Fn(i32, &Vec<u8>, &str) -> Option<T>,
    O: Fn(&Vec<u8>, &Vec<u8>) -> Result<Vec<u8>, PersistError>,
    P: Fn(&Vec<u8>, bool, bool) -> Result<T, PersistError>,
>(stash: &Vec<u8>, blob: &[u8], load: &L, open: &O, list: &P) -> (r: Result<T, PersistError>)
    requires
        forall|e: i32, s: Vec<u8>, t: &str| #[trigger] call_requires(*load, (e, &s, t)),
        forall|s: Vec<u8>, c: Vec<u8>| #[trigger] call_requires(*open, (&s, &c)),
        forall|p: Vec<u8>, a: bool, b: bool| #[trigger] call_requires(*list, (&p, a, b)),
    ensures
        entries_result(*stash, blob@, *load, *open, *list, result_view(r)),
{
    match contents(blob) {
        Err(e) => Err(e),
        Ok(Contents::Dump(text)) => load_with_stash(stash, text, load),
        Ok(Contents::Blob { v2, v3 }) => load_kdb_blob(stash, blob, v2, v3, open, list),
    }
}

/// Loads a database with the master key that was stashed: a dump, or a list in
/// one of the older encrypted formats. `blob` is the database file, where it is
/// there, and `log` its log of updates. `load` reads a dump under a key of a
/// type, `open` decrypts a list, and `list` reads one, of the second or the
/// third format where it is not of the first.
pub fn load_store<
    T,
    L: Fn(i32, &Vec<u8>, &str) -> Option<T>,
    O: Fn(&Vec<u8>, &Vec<u8>) -> Result<Vec<u8>, PersistError>,
    P: Fn(&Vec<u8>, bool, bool) -> Result<T, PersistError>,
>(
    stash: &Vec<u8>,
    blob: Option<&[u8]>,
    log: Option<&str>,
    load: &L,
    open: &O,
    list: &P,
) -> (r: Result<(T, Vec<UlogEntry>), PersistError>)
    requires
        forall|e: i32, s: Vec<u8>, t: &str| #[trigger] call_requires(*load, (e, &s, t)),
        forall|s: Vec<u8>, c: Vec<u8>| #[trigger] call_requires(*open, (&s, &c)),
        forall|p: Vec<u8>, a: bool, b: bool| #[trigger] call_requires(*list, (&p, a, b)),
    ensures
        match blob {
            None => r matches Err(e) && e@ == PersistErrorView::Format("missing database"@),
            Some(b) => exists|s: Result<T, PersistErrorView>| #[trigger]
                entries_result(*stash, b@, *load, *open, *list, s) && loaded_result(s, log, r),
        },
{
    let b = match blob {
        None => {
            return Err(PersistError::Format("missing database".to_owned()));
        },
        Some(b) => b,
    };
    let s = load_entries(stash, b, load, open, list);
    assert(entries_result(*stash, b@, *load, *open, *list, result_view(s)));
    let store = match s {
        Err(e) => {
            return Err(e);
        },
        Ok(v) => v,
    };
    match log {
        None => {
            let empty: Vec<UlogEntry> = Vec::new();
            assert(ulog_views(empty@) =~= Seq::<UlogView>::empty());
            Ok((store, empty))
        },
        Some(t) => match load_ulog(t) {
            Err(e) => Err(e),
            Ok(es) => Ok((store, es)),
        },
    }
}

/// The relative identifier of a principal in a list: the last that is given for
/// it, 0 where none is.
pub open spec fn rid_of(rids: Seq<(String, u32)>, id: Seq<char>) -> u32
    decreases rids.len(),
{
    if rids.len() == 0 {
        0
    } else if rids.last().0@ == id {
        rids.last().1
    } else {
        rid_of(rids.drop_last(), id)
    }
}

/// Finds the relative identifier of a principal in a list.
fn find_rid(rids: &Vec<(String, u32)>, id: &str) -> (r: u32)
    ensures
        r == rid_of(rids@, id@),
{
    let mut n: usize = rids.len();
    assert(rids@.take(n as int) =~= rids@);
    while n > 0
        invariant
            n <= rids.len(),
            rid_of(rids@, id@) == rid_of(rids@.take(n as int), id@),
        decreases n,
    {
        assert(rids@.take(n as int).drop_last() =~= rids@.take(n - 1));
        if str_eq(rids[n - 1].0.as_str(), id) {
            return rids[n - 1].1;
        }
        n = n - 1;
    }
    0
}

/// `p` is the principal of an entry of a list.
pub open spec fn is_listed(
    p: Principal,
    realm: Seq<char>,
    e: PlainEntry,
    rids: Seq<(String, u32)>,
) -> bool {
    &&& p.name == e.name
    &&& p.realm@ == realm
    &&& p.keys == e.keys
    &&& p.salt == e.salt
    &&& p.requires_preauth == e.requires_preauth
    &&& p.max_life == e.max_life
    &&& p.locked == e.locked
    &&& p.pw_expire == e.pw_expire
    &&& p.rid == rid_of(rids, p.spec_id())
    &&& p.is_plain()
}

/// The identifiers behind a list, where it has them.
pub open spec fn listed_rids(t: Option<SidTrailer>) -> Seq<(String, u32)> {
    match t {
        Some(x) => x.rids@,
        None => Seq::empty(),
    }
}

/// The principals that a list holds, in its order.
pub fn list_principals(db: PlainDb) -> (r: (String, Vec<Principal>, Option<String>))
    ensures
        r.0 == db.realm,
        r.1@.len() == db.entries@.len(),
        forall|i: int|
            0 <= i < r.1@.len() ==> is_listed(
                #[trigger] r.1@[i],
                db.realm@,
                db.entries@[i],
                listed_rids(db.sids),
            ),
        match db.sids {
            Some(t) => r.2 == Some(t.sddl),
            None => r.2 is None,
        },
{
    let ghost whole = db;
    let PlainDb { realm, entries, sids } = db;
    let (sddl, rids): (Option<String>, Vec<(String, u32)>) = match sids {
        Some(t) => (Some(t.sddl), t.rids),
        None => (None, Vec::new()),
    };
    assert(rids@ =~= listed_rids(whole.sids));
    let mut rest = entries;
    let mut out: Vec<Principal> = Vec::new();
    let ghost mut n: int = 0;
    assert(whole.entries@.skip(0) =~= whole.entries@);
    while rest.len() > 0
        invariant
            realm == whole.realm,
            rids@ == listed_rids(whole.sids),
            0 <= n <= whole.entries@.len(),
            out@.len() == n,
            rest@ == whole.entries@.skip(n),
            forall|i: int|
                0 <= i < n ==> is_listed(
                    #[trigger] out@[i],
                    whole.realm@,
                    whole.entries@[i],
                    listed_rids(whole.sids),
                ),
        decreases rest.len(),
    {
        let e = rest.remove(0);
        assert(e == whole.entries@[n]);
        assert(rest@ =~= whole.entries@.skip(n + 1));
        let mut p = Principal::nobody();
        p.name = e.name;
        p.realm = realm.as_str().to_owned();
        p.keys = e.keys;
        p.salt = e.salt;
        p.requires_preauth = e.requires_preauth;
        p.max_life = e.max_life;
        p.locked = e.locked;
        p.pw_expire = e.pw_expire;
        let id = p.id();
        p.rid = find_rid(&rids, id.as_str());
        out.push(p);
        proof {
            n = n + 1;
        }
    }
    (realm, out, sddl)
}

/// What a dump loads as came from the stashed key as a key of a type that is
/// tried, and a dump that does not load was tried as every one of them.
pub proof fn law_dump_is_tried_with_each_type<T, L: Fn(i32, &Vec<u8>, &str) -> Option<T>>(
    stash: Vec<u8>,
    text: Seq<char>,
    load: L,
    r: Result<T, PersistErrorView>,
)
    requires
        dump_result(stash, text, load, r),
    ensures
        r matches Ok(s) ==> exists|i: int|
            0 <= i < STASH_ETYPES@.len() && #[trigger] dump_loaded(
                load,
                STASH_ETYPES@[i],
                stash,
                text,
                Some(s),
            ),
        r matches Err(e) ==> e == PersistErrorView::Crypto(
            "stash master key did not decrypt dump key_data"@,
        ) && forall|i: int|
            0 <= i < STASH_ETYPES@.len() ==> #[trigger] dump_loaded(
                load,
                STASH_ETYPES@[i],
                stash,
                text,
                None,
            ),
{
    if let Ok(s) = r {
        if dump_loaded(load, STASH_ETYPES@[0], stash, text, Some(s)) {
        } else {
            assert(dump_loaded(load, STASH_ETYPES@[1], stash, text, Some(s)));
        }
    }
}

/// Of the identifiers given for a principal the last counts, those of others do
/// not matter, and a principal without one has zero.
pub proof fn law_last_identifier_counts(rids: Seq<(String, u32)>, r: (String, u32), id: Seq<char>)
    ensures
        rid_of(rids.push(r), r.0@) == r.1,
        id != r.0@ ==> rid_of(rids.push(r), id) == rid_of(rids, id),
        (forall|i: int| 0 <= i < rids.len() ==> (#[trigger] rids[i]).0@ != id) ==> rid_of(rids, id)
            == 0,
{
    assert(rids.push(r).drop_last() =~= rids);
    if forall|i: int| 0 <= i < rids.len() ==> (#[trigger] rids[i]).0@ != id {
        lemma_no_identifier(rids, id);
    }
}

/// A principal without an identifier has zero.
proof fn lemma_no_identifier(rids: Seq<(String, u32)>, id: Seq<char>)
    requires
        forall|i: int| 0 <= i < rids.len() ==> (#[trigger] rids[i]).0@ != id,
    ensures
        rid_of(rids, id) == 0,
    decreases rids.len(),
{
    if rids.len() > 0 {
        lemma_no_identifier(rids.drop_last(), id);
    }
}

/// A database loads where its entries load and its log can be read, or it has
/// none; the entries decide which error comes first.
pub proof fn law_entries_and_log_both_load<T>(
    s: Result<T, PersistErrorView>,
    log: Option<&str>,
    r: Result<(T, Vec<UlogEntry>), PersistError>,
)
    requires
        loaded_result(s, log, r),
    ensures
        r is Ok <==> (s is Ok && (log matches Some(t) ==> spec_load_ulog(t@) is Ok)),
        r matches Ok(t) ==> s == Ok::<T, PersistErrorView>(t.0) && (log is None ==> t.1@.len() == 0),
        s matches Err(e) ==> r matches Err(x) && x@ == e,
{
    if let Ok(t) = r {
        assert(ulog_views(t.1@).len() == t.1@.len());
    }
}

/// A file is read as a dump where it starts as one, as an encrypted list where it
/// names a format, and otherwise not at all.
pub proof fn law_start_of_a_file_decides<
    T,
    L: Fn(i32, &Vec<u8>, &str) -> Option<T>,
    O: Fn(&Vec<u8>, &Vec<u8>) -> Result<Vec<u8>, PersistError>,
    P: Fn(&Vec<u8>, bool, bool) -> Result<T, PersistError>,
>(
    stash: Vec<u8>,
    blob: Seq<u8>,
    load: L,
    open: O,
    list: P,
    r: Result<T, PersistErrorView>,
)
    requires
        entries_result(stash, blob, load, open, list, r),
    ensures
        !is_dump(blob) && kdb_format(blob) is None ==> r matches Err(PersistErrorView::Format(_)),
        is_dump(blob) && !valid_utf8(blob) ==> r == Err::<T, PersistErrorView>(
            PersistErrorView::Format("dump is not utf-8"@),
        ),
        is_dump(blob) && valid_utf8(blob) ==> dump_result(stash, decode_utf8(blob), load, r),
        !is_dump(blob) && kdb_format(blob) is Some ==> list_result(stash, blob, open, list, r),
{
}

/// An encrypted list is what stands behind the four octets that name its format:
/// where that does not open, the list is not read.
pub proof fn law_unopened_list_is_not_read<
    T,
    O: Fn(&Vec<u8>, &Vec<u8>) -> Result<Vec<u8>, PersistError>,
    P: Fn(&Vec<u8>, bool, bool) -> Result<T, PersistError>,
>(stash: Vec<u8>, blob: Seq<u8>, open: O, list: P, r: Result<T, PersistErrorView>)
    requires
        list_result(stash, blob, open, list, r),
        forall|c: Vec<u8>, p: Result<Vec<u8>, PersistError>| #[trigger]
            call_ensures(open, (&stash, &c), p) && c@ == blob.skip(4) ==> p is Err,
    ensures
        r is Err,
{
}

/// A listed principal is what its entry says, in the realm of the list, with the
/// identifier that the list gives it, and has nothing else.
pub proof fn law_listed_principal(
    p: Principal,
    realm: Seq<char>,
    e: PlainEntry,
    rids: Seq<(String, u32)>,
)
    requires
        is_listed(p, realm, e, rids),
    ensures
        p.name == e.name && p.realm@ == realm && p.keys == e.keys && p.salt == e.salt,
        p.requires_preauth == e.requires_preauth && p.max_life == e.max_life,
        p.locked == e.locked && p.pw_expire == e.pw_expire,
        p.rid == rid_of(rids, p.name@.joined().push('@') + realm),
        p.attributes == 0 && p.expiration == 0 && p.tl_data@.len() == 0 && p.key_history@.len()
            == 0,
{
}

} // verus!
