//! Databases at rest: which format a file has, which key opens it, and why it
//! cannot be loaded or saved.

pub mod load;
pub mod plain;
pub mod ulog;

use crate::bytes::slice_eq;
use crate::kdb_dump::entry::DumpErrorView;
use crate::kdb_dump::DumpError;
use crate::outside::utf8_text;
use crate::text::concat;
use vstd::prelude::*;
use vstd::slice::slice_subrange;
use vstd::string::*;
use vstd::utf8::{decode_utf8, valid_utf8};

verus! {

/// What a dump starts with.
pub const DUMP_PREFIX: [u8; 28] = [
    0x6b, 0x64, 0x62, 0x35, 0x5f, 0x75, 0x74, 0x69, 0x6c, 0x20, 0x6c, 0x6f, 0x61, 0x64, 0x5f, 0x64,
    0x75, 0x6d, 0x70, 0x20, 0x76, 0x65, 0x72, 0x73, 0x69, 0x6f, 0x6e, 0x20,
];

/// Why a database cannot be loaded or saved.
#[derive(Clone, Debug, PartialEq, Eq)]
pub enum PersistError {
    /// A file that cannot be read or written.
    Io(String),
    /// A key that cannot be read or written.
    Crypto(String),
    /// Contents that do not keep to the format.
    Format(String),
    /// A database library that is not known.
    UnknownDbLibrary(String),
}

/// What is said of a database that cannot be loaded or saved.
pub enum PersistErrorView {
    /// A file that cannot be read or written.
    Io(Seq<char>),
    /// A key that cannot be read or written.
    Crypto(Seq<char>),
    /// Contents that do not keep to the format.
    Format(Seq<char>),
    /// A database library that is not known.
    UnknownDbLibrary(Seq<char>),
}

impl View for PersistError {
    type V = PersistErrorView;

    open spec fn view(&self) -> PersistErrorView {
        match self {
            PersistError::Io(s) => PersistErrorView::Io(s@),
            PersistError::Crypto(s) => PersistErrorView::Crypto(s@),
            PersistError::Format(s) => PersistErrorView::Format(s@),
            PersistError::UnknownDbLibrary(s) => PersistErrorView::UnknownDbLibrary(s@),
        }
    }
}

impl PersistError {
    /// The text of the error.
    pub fn message(&self) -> (r: String)
        ensures
            r@ == (match self@ {
                PersistErrorView::Io(s) => "persist io: "@ + s,
                PersistErrorView::Crypto(s) => "persist crypto: "@ + s,
                PersistErrorView::Format(s) => "persist format: "@ + s,
                PersistErrorView::UnknownDbLibrary(s) => "unknown db_library: "@ + s,
            }),
    {
        match self {
            PersistError::Io(s) => concat("persist io: ", s.as_str()),
            PersistError::Crypto(s) => concat("persist crypto: ", s.as_str()),
            PersistError::Format(s) => concat("persist format: ", s.as_str()),
            PersistError::UnknownDbLibrary(s) => concat("unknown db_library: ", s.as_str()),
        }
    }

    /// The error of a database whose dump is wrong.
    pub fn from_dump(e: DumpError) -> (r: PersistError)
        ensures
            r@ == (match e@ {
                DumpErrorView::Io(s) => PersistErrorView::Io(s),
                DumpErrorView::Crypto(s) => PersistErrorView::Crypto(s),
                DumpErrorView::Format(s) => PersistErrorView::Format(s),
            }),
    {
        match e {
            DumpError::Io(s) => PersistError::Io(s),
            DumpError::Crypto(s) => PersistError::Crypto(s),
            DumpError::Format(s) => PersistError::Format(s),
        }
    }
}

/// What a database file holds.
#[derive(Clone, Debug, PartialEq, Eq)]
pub enum Contents<'a> {
    /// A dump.
    Dump(&'a str),
    /// An encrypted list of entries, of the second or the third format where
    /// it is not of the first.
    Blob {
        /// The second format.
        v2: bool,
        /// The third format.
        v3: bool,
    },
}

/// A file that starts as a dump does.
pub open spec fn is_dump(b: Seq<u8>) -> bool {
    DUMP_PREFIX@.is_prefix_of(b)
}

/// Whether a file starts as a dump does.
pub fn starts_as_dump(b: &[u8]) -> (r: bool)
    ensures
        r == is_dump(b@),
{
    if b.len() < 28 {
        return false;
    }
    let r: bool = slice_eq(slice_subrange(b, 0, 28), &DUMP_PREFIX);
    r
}

/// The format number behind `KDB` in the first four octets.
pub open spec fn kdb_format(b: Seq<u8>) -> Option<u8> {
    if b.len() >= 4 && b[0] == 0x4b && b[1] == 0x44 && b[2] == 0x42 && 0x31 <= b[3] <= 0x33 {
        Some((b[3] - 0x30) as u8)
    } else {
        None
    }
}

/// Tells what a database file holds.
pub fn contents(b: &[u8]) -> (r: Result<Contents<'_>, PersistError>)
    ensures
        match r {
            Ok(Contents::Dump(t)) => is_dump(b@) && valid_utf8(b@) && t@ == decode_utf8(b@),
            Ok(Contents::Blob { v2, v3 }) => !is_dump(b@) && kdb_format(b@) is Some && v2 == (
            kdb_format(b@)->0 == 2) && v3 == (kdb_format(b@)->0 == 3),
            Err(e) => if is_dump(b@) {
                !valid_utf8(b@) && e@ == PersistErrorView::Format("dump is not utf-8"@)
            } else {
                kdb_format(b@) is None && e@ == PersistErrorView::Format(
                    if b@.len() < 4 {
                        "missing KDB magic"@
                    } else {
                        "missing dump header or KDB1/KDB2/KDB3 magic"@
                    },
                )
            },
        },
{
    if starts_as_dump(b) {
        return match utf8_text(b) {
            Some(t) => Ok(Contents::Dump(t)),
            None => Err(PersistError::Format("dump is not utf-8".to_owned())),
        };
    }
    if b.len() < 4 {
        return Err(PersistError::Format("missing KDB magic".to_owned()));
    }
    if b[0] == 0x4b && b[1] == 0x44 && b[2] == 0x42 && 0x31 <= b[3] && b[3] <= 0x33 {
        return Ok(Contents::Blob { v2: b[3] == 0x32, v3: b[3] == 0x33 });
    }
    Err(PersistError::Format("missing dump header or KDB1/KDB2/KDB3 magic".to_owned()))
}

/// The encryption types that a stashed master key may have, in the order in
/// which they are tried.
pub const STASH_ETYPES: [i32; 2] = [20, 18];

/// What is known of a stashed key as a key of one type.
#[derive(Clone, Copy, Debug, PartialEq, Eq, Structural)]
pub struct StashTry {
    /// It can be a key of the type.
    pub usable: bool,
    /// It opens the dump that is there.
    pub opens: bool,
}

/// The type that a stashed key is used as: the first that opens the dump that
/// is there, or else the first that it can be a key of.
pub open spec fn spec_stash_choice(tries: Seq<StashTry>, i: int) -> bool {
    0 <= i < tries.len() && tries[i].usable && (if exists|k: int|
        0 <= k < tries.len() && (#[trigger] tries[k]).usable && tries[k].opens {
        tries[i].opens && forall|k: int|
            0 <= k < i ==> !((#[trigger] tries[k]).usable && tries[k].opens)
    } else {
        forall|k: int| 0 <= k < i ==> !(#[trigger] tries[k]).usable
    })
}

/// Chooses the type that a stashed key is used as.
pub fn existing_stash_key(tries: &[StashTry]) -> (r: Result<usize, PersistError>)
    ensures
        match r {
            Ok(i) => spec_stash_choice(tries@, i as int),
            Err(e) => (forall|k: int| 0 <= k < tries@.len() ==> !(#[trigger] tries@[k]).usable)
                && e@ == PersistErrorView::Crypto("stash is not a usable master key"@),
        },
{
    let mut i: usize = 0;
    while i < tries.len()
        invariant
            i <= tries@.len(),
            forall|k: int| 0 <= k < i ==> !((#[trigger] tries@[k]).usable && tries@[k].opens),
        decreases tries@.len() - i,
    {
        if tries[i].usable && tries[i].opens {
            return Ok(i);
        }
        i = i + 1;
    }
    let mut j: usize = 0;
    while j < tries.len()
        invariant
            j <= tries@.len(),
            forall|k: int|
                0 <= k < tries@.len() ==> !((#[trigger] tries@[k]).usable && tries@[k].opens),
            forall|k: int| 0 <= k < j ==> !(#[trigger] tries@[k]).usable,
        decreases tries@.len() - j,
    {
        if tries[j].usable {
            return Ok(j);
        }
        j = j + 1;
    }
    Err(PersistError::Crypto("stash is not a usable master key".to_owned()))
}

/// A file that starts with `KDB` and a digit from one to three is of that
/// format; with any other four octets, or with fewer, it is of none.
pub proof fn law_format_is_named(b: Seq<u8>, v: u8)
    requires
        v <= 9,
    ensures
        kdb_format(b) == Some(v) <==> (1 <= v <= 3 && b.len() >= 4 && b.take(4) == seq![
            0x4bu8,
            0x44,
            0x42,
            (0x30 + v) as u8,
        ]),
{
    if b.len() >= 4 {
        assert(b.take(4)[0] == b[0] && b.take(4)[1] == b[1] && b.take(4)[2] == b[2] && b.take(4)[3]
            == b[3]);
        let name = seq![0x4bu8, 0x44, 0x42, (0x30 + v) as u8];
        if b[0] == 0x4b && b[1] == 0x44 && b[2] == 0x42 && b[3] == 0x30 + v {
            assert(b.take(4) =~= name);
        }
        if b.take(4) == name {
            assert(b[3] == name[3]);
        }
    }
}

/// The type that a stashed key is used as is one that it can be a key of, and
/// there is at most one. Where the key opens the dump as some type, it opens it
/// as that one; none in front of it would have done as well.
pub proof fn law_stash_choice_is_the_first(tries: Seq<StashTry>, i: int, j: int, k: int)
    requires
        spec_stash_choice(tries, i),
        spec_stash_choice(tries, j),
        0 <= k < tries.len(),
        tries[k].usable,
    ensures
        tries[i].usable,
        i == j,
        tries[k].opens ==> tries[i].opens && i <= k,
        !tries[i].opens ==> i <= k,
{
    if i < j {
        assert(tries[i].usable);
    } else if j < i {
        assert(tries[j].usable);
    }
}

/// A stashed key that can be a key of some type is used as one.
pub proof fn law_usable_stash_is_used(tries: Seq<StashTry>, k: int) -> (i: int)
    requires
        0 <= k < tries.len(),
        tries[k].usable,
    ensures
        spec_stash_choice(tries, i),
{
    if exists|m: int| 0 <= m < tries.len() && (#[trigger] tries[m]).usable && tries[m].opens {
        let m = choose|m: int|
            0 <= m < tries.len() && (#[trigger] tries[m]).usable && tries[m].opens;
        lemma_first_opening(tries, m)
    } else {
        lemma_first_usable(tries, k)
    }
}

/// The first type that a stashed key opens the dump as.
proof fn lemma_first_opening(tries: Seq<StashTry>, k: int) -> (i: int)
    requires
        0 <= k < tries.len(),
        tries[k].usable,
        tries[k].opens,
    ensures
        0 <= i <= k,
        tries[i].usable && tries[i].opens,
        forall|m: int| 0 <= m < i ==> !((#[trigger] tries[m]).usable && tries[m].opens),
    decreases k,
{
    if exists|m: int| 0 <= m < k && (#[trigger] tries[m]).usable && tries[m].opens {
        let m = choose|m: int| 0 <= m < k && (#[trigger] tries[m]).usable && tries[m].opens;
        lemma_first_opening(tries, m)
    } else {
        k
    }
}

/// The first type that a stashed key can be a key of.
proof fn lemma_first_usable(tries: Seq<StashTry>, k: int) -> (i: int)
    requires
        0 <= k < tries.len(),
        tries[k].usable,
    ensures
        0 <= i <= k,
        tries[i].usable,
        forall|m: int| 0 <= m < i ==> !(#[trigger] tries[m]).usable,
    decreases k,
{
    if exists|m: int| 0 <= m < k && (#[trigger] tries[m]).usable {
        let m = choose|m: int| 0 <= m < k && (#[trigger] tries[m]).usable;
        lemma_first_usable(tries, m)
    } else {
        k
    }
}

} // verus!
