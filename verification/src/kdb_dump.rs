//! The dump of a principal database as text: a header line, then one line for
//! each principal, its fields separated by tabs.

pub mod database;
pub mod entry;
pub mod restored;
pub mod write;

use crate::num::{
    decimal, decimal_int, digit_char, law_decimal_round_trip, parse_hex, parse_signed,
    parse_unsigned, parsed_int, parsed_nat, push_decimal, push_signed, unhex,
};
use crate::store::TlData;
use crate::text::{
    char_lists, chars_of, concat, has_prefix, last_position, last_position_of, lemma_last_position,
    lemma_position, lines, lines_of, position, range_string, split, split_chars, str_eq, string_of,
    trim, trim_end, trim_range, views,
};
use vstd::prelude::*;
use vstd::slice::slice_subrange;
use vstd::string::*;
use vstd::utf8::encode_utf8;

verus! {

/// Version of a dump that is written.
pub const KDB_DUMP_VERSION: u32 = 7;

/// Older version that is read too; its records are the same.
pub const KDB_DUMP_VERSION_R18: u32 = 6;

/// Why a dump cannot be read or written.
#[derive(Clone, Debug, PartialEq, Eq)]
pub enum DumpError {
    /// A line that does not keep to the format.
    Format(String),
    /// A key that cannot be read or written.
    Crypto(String),
    /// A file that cannot be read or written.
    Io(String),
}

impl DumpError {
    /// The text of the error.
    pub open spec fn spec_message(&self) -> Seq<char> {
        match self {
            DumpError::Format(s) => "dump format: "@ + s@,
            DumpError::Crypto(s) => "dump crypto: "@ + s@,
            DumpError::Io(s) => "dump io: "@ + s@,
        }
    }

    /// The text of the error.
    pub fn message(&self) -> (r: String)
        ensures
            r@ == self.spec_message(),
    {
        match self {
            DumpError::Format(s) => concat("dump format: ", s.as_str()),
            DumpError::Crypto(s) => concat("dump crypto: ", s.as_str()),
            DumpError::Io(s) => concat("dump io: ", s.as_str()),
        }
    }
}

/// A part of a key: the key or its salt.
#[derive(Clone, Debug, PartialEq, Eq)]
pub struct DumpKeySlot {
    /// Encryption type or salt type.
    pub ty: i32,
    /// Encrypted key or salt.
    pub contents: Vec<u8>,
}

/// A key: one slot where there is no salt, two where there is one.
#[derive(Clone, Debug, PartialEq, Eq)]
pub struct DumpKeyData {
    /// Number of slots.
    pub ver: i32,
    /// Key version number.
    pub kvno: u32,
    /// The slots.
    pub slots: Vec<DumpKeySlot>,
}

/// The record of a principal; its keys are encrypted in the master key.
#[derive(Clone, Debug, PartialEq, Eq)]
pub struct DumpPrincipal {
    /// Length of the fixed part of the entry.
    pub db_len: u32,
    /// The principal as `name@REALM`.
    pub name: String,
    /// Attribute bits.
    pub attributes: u32,
    /// Longest ticket life in seconds.
    pub max_life: u32,
    /// Longest renewable life in seconds.
    pub max_renewable_life: u32,
    /// Expiry (0: never).
    pub expiration: u32,
    /// Password expiry (0: never).
    pub pw_expiration: u32,
    /// Last successful authentication.
    pub last_success: u32,
    /// Last failed authentication.
    pub last_failed: u32,
    /// Failures since the last success.
    pub fail_auth_count: u32,
    /// Tagged data.
    pub tl_data: Vec<TlData>,
    /// Keys.
    pub keys: Vec<DumpKeyData>,
    /// Extra data.
    pub e_data: Vec<u8>,
}

/// A dump.
#[derive(Clone, Debug, PartialEq, Eq)]
pub struct DumpFile {
    /// Version.
    pub version: u32,
    /// The records, in the order of the file.
    pub princs: Vec<DumpPrincipal>,
    /// What the policy lines say, in the order of the file.
    pub policies: Vec<String>,
}

/// A type with octets.
#[verifier::ext_equal]
pub struct BlobView {
    /// The type.
    pub ty: i32,
    /// The octets.
    pub contents: Seq<u8>,
}

/// What a key says.
#[verifier::ext_equal]
pub struct DumpKeyView {
    /// Number of slots.
    pub ver: i32,
    /// Key version number.
    pub kvno: u32,
    /// The slots.
    pub slots: Seq<BlobView>,
}

/// What a record says.
#[verifier::ext_equal]
pub struct PrincView {
    /// Length of the fixed part of the entry.
    pub db_len: u32,
    /// The principal as `name@REALM`.
    pub name: Seq<char>,
    /// Attribute bits.
    pub attributes: u32,
    /// Longest ticket life in seconds.
    pub max_life: u32,
    /// Longest renewable life in seconds.
    pub max_renewable_life: u32,
    /// Expiry (0: never).
    pub expiration: u32,
    /// Password expiry (0: never).
    pub pw_expiration: u32,
    /// Last successful authentication.
    pub last_success: u32,
    /// Last failed authentication.
    pub last_failed: u32,
    /// Failures since the last success.
    pub fail_auth_count: u32,
    /// Tagged data.
    pub tl_data: Seq<BlobView>,
    /// Keys.
    pub keys: Seq<DumpKeyView>,
    /// Extra data.
    pub e_data: Seq<u8>,
}

/// What a dump says.
#[verifier::ext_equal]
pub struct FileView {
    /// Version.
    pub version: u32,
    /// The records.
    pub princs: Seq<PrincView>,
    /// What the policy lines say.
    pub policies: Seq<Seq<char>>,
}

impl View for DumpKeySlot {
    type V = BlobView;

    open spec fn view(&self) -> BlobView {
        BlobView { ty: self.ty, contents: self.contents@ }
    }
}

impl View for DumpKeyData {
    type V = DumpKeyView;

    open spec fn view(&self) -> DumpKeyView {
        DumpKeyView {
            ver: self.ver,
            kvno: self.kvno,
            slots: self.slots@.map_values(|s: DumpKeySlot| s@),
        }
    }
}

/// The record at `i` is the first of a principal.
pub open spec fn is_first_named(v: Seq<DumpPrincipal>, name: Seq<char>, i: int) -> bool {
    0 <= i < v.len() && v[i].name@ == name && forall|k: int|
        0 <= k < i ==> (#[trigger] v[k]).name@ != name
}

/// The first record of a principal is one, and stands in front of every other of
/// that principal.
pub proof fn law_first_record_is_one(v: Seq<DumpPrincipal>, name: Seq<char>, i: int, j: int)
    requires
        is_first_named(v, name, i),
        0 <= j < v.len(),
        v[j].name@ == name,
    ensures
        i <= j,
        v[i].name@ == name,
        is_first_named(v, name, j) ==> i == j,
{
}

/// What tagged data says.
pub open spec fn tl_views(v: Seq<TlData>) -> Seq<BlobView> {
    v.map_values(|t: TlData| BlobView { ty: t.ty, contents: t.contents@ })
}

/// What keys say.
pub open spec fn dump_key_views(v: Seq<DumpKeyData>) -> Seq<DumpKeyView> {
    v.map_values(|k: DumpKeyData| k@)
}

impl View for DumpPrincipal {
    type V = PrincView;

    open spec fn view(&self) -> PrincView {
        PrincView {
            db_len: self.db_len,
            name: self.name@,
            attributes: self.attributes,
            max_life: self.max_life,
            max_renewable_life: self.max_renewable_life,
            expiration: self.expiration,
            pw_expiration: self.pw_expiration,
            last_success: self.last_success,
            last_failed: self.last_failed,
            fail_auth_count: self.fail_auth_count,
            tl_data: tl_views(self.tl_data@),
            keys: dump_key_views(self.keys@),
            e_data: self.e_data@,
        }
    }
}

/// What records say.
pub open spec fn princ_views(v: Seq<DumpPrincipal>) -> Seq<PrincView> {
    v.map_values(|p: DumpPrincipal| p@)
}

impl View for DumpFile {
    type V = FileView;

    open spec fn view(&self) -> FileView {
        FileView {
            version: self.version,
            princs: princ_views(self.princs@),
            policies: views(self.policies@),
        }
    }
}

/// What is said of an error in a line.
pub open spec fn at_line(line: nat, msg: Seq<char>) -> Seq<char> {
    "line "@ + decimal(line) + ": "@ + msg
}

/// The error in a line.
fn line_error(line: usize, msg: &str) -> (r: DumpError)
    ensures
        r matches DumpError::Format(m) && m@ == at_line(line as nat, msg@),
{
    let mut out = concat("line ", "");
    push_decimal(&mut out, line as u64);
    out.append(": ");
    out.append(msg);
    proof {
        reveal_strlit("");
        assert(out@ =~= at_line(line as nat, msg@));
    }
    DumpError::Format(out)
}

/// The field at `i`.
pub open spec fn field(f: Seq<Seq<char>>, i: int, line: nat) -> Result<Seq<char>, Seq<char>> {
    if i < f.len() {
        Ok(f[i])
    } else {
        Err(at_line(line, "truncated princ record"@))
    }
}

/// The unsigned number in the field at `i`.
pub open spec fn word(f: Seq<Seq<char>>, i: int, line: nat) -> Result<u32, Seq<char>> {
    match field(f, i, line) {
        Err(e) => Err(e),
        Ok(s) => match parsed_nat(s) {
            Some(n) => if n <= u32::MAX {
                Ok(n as u32)
            } else {
                Err(at_line(line, "not an integer: "@ + s))
            },
            None => Err(at_line(line, "not an integer: "@ + s)),
        },
    }
}

/// The signed number in the field at `i`.
pub open spec fn signed_word(f: Seq<Seq<char>>, i: int, line: nat) -> Result<i32, Seq<char>> {
    match field(f, i, line) {
        Err(e) => Err(e),
        Ok(s) => match parsed_int(s) {
            Some(n) => if i32::MIN <= n <= i32::MAX {
                Ok(n as i32)
            } else {
                Err(at_line(line, "not an integer: "@ + s))
            },
            None => Err(at_line(line, "not an integer: "@ + s)),
        },
    }
}

/// The unsigned numbers in the `n` fields from `i` on.
pub open spec fn words(f: Seq<Seq<char>>, i: int, n: nat, line: nat) -> Result<
    Seq<u32>,
    Seq<char>,
>
    decreases n,
{
    if n == 0 {
        Ok(Seq::empty())
    } else {
        match words(f, i, (n - 1) as nat, line) {
            Err(e) => Err(e),
            Ok(v) => match word(f, i + n - 1, line) {
                Err(e) => Err(e),
                Ok(w) => Ok(v.push(w)),
            },
        }
    }
}

/// The octets in the field at `i`, which are `len` octets.
pub open spec fn blob(f: Seq<Seq<char>>, i: int, len: u32, line: nat) -> Result<
    Seq<u8>,
    Seq<char>,
> {
    match field(f, i, line) {
        Err(e) => Err(e),
        Ok(s) => if len == 0 {
            if s == "-1"@ {
                Ok(Seq::empty())
            } else {
                Err(at_line(line, "empty blob must be -1"@))
            }
        } else {
            match unhex(s) {
                None => Err(at_line(line, "bad hex: "@ + s)),
                Some(b) => if b.len() == len {
                    Ok(b)
                } else {
                    Err(
                        at_line(
                            line,
                            "hex decoded "@ + decimal(b.len()) + " bytes, header "@ + decimal(
                                len as nat,
                            ),
                        ),
                    )
                },
            }
        },
    }
}

/// A type, a length and octets, in the three fields from `i` on.
pub open spec fn typed_blob(f: Seq<Seq<char>>, i: int, line: nat) -> Result<BlobView, Seq<char>> {
    match signed_word(f, i, line) {
        Err(e) => Err(e),
        Ok(ty) => match word(f, i + 1, line) {
            Err(e) => Err(e),
            Ok(len) => match blob(f, i + 2, len, line) {
                Err(e) => Err(e),
                Ok(contents) => Ok(BlobView { ty, contents }),
            },
        },
    }
}

/// `n` types with octets from `i` on.
pub open spec fn blobs(f: Seq<Seq<char>>, i: int, n: nat, line: nat) -> Result<
    Seq<BlobView>,
    Seq<char>,
>
    decreases n,
{
    if n == 0 {
        Ok(Seq::empty())
    } else {
        match blobs(f, i, (n - 1) as nat, line) {
            Err(e) => Err(e),
            Ok(v) => match typed_blob(f, i + 3 * (n - 1), line) {
                Err(e) => Err(e),
                Ok(b) => Ok(v.push(b)),
            },
        }
    }
}

/// A key from `i` on, and the field behind it.
pub open spec fn key(f: Seq<Seq<char>>, i: int, line: nat) -> Result<
    (DumpKeyView, int),
    Seq<char>,
> {
    match signed_word(f, i, line) {
        Err(e) => Err(e),
        Ok(ver) => if ver != 1 && ver != 2 {
            Err(at_line(line, "unsupported key_data_ver "@ + decimal_int(ver as int)))
        } else {
            match word(f, i + 1, line) {
                Err(e) => Err(e),
                Ok(kvno) => match blobs(f, i + 2, ver as nat, line) {
                    Err(e) => Err(e),
                    Ok(slots) => Ok((DumpKeyView { ver, kvno, slots }, i + 2 + 3 * ver)),
                },
            }
        },
    }
}

/// `n` keys from `i` on, and the field behind them.
pub open spec fn keys(f: Seq<Seq<char>>, i: int, n: nat, line: nat) -> Result<
    (Seq<DumpKeyView>, int),
    Seq<char>,
>
    decreases n,
{
    if n == 0 {
        Ok((Seq::empty(), i))
    } else {
        match keys(f, i, (n - 1) as nat, line) {
            Err(e) => Err(e),
            Ok((v, j)) => match key(f, j, line) {
                Err(e) => Err(e),
                Ok((k, next)) => Ok((v.push(k), next)),
            },
        }
    }
}

/// Octets of a text.
pub open spec fn octet_len(s: Seq<char>) -> nat {
    encode_utf8(s).len()
}

/// The fields that lists follow: five numbers, the name, eight numbers.
#[verifier::opaque]
pub open spec fn head(f: Seq<Seq<char>>, line: nat) -> Result<
    (Seq<u32>, Seq<char>, Seq<u32>),
    Seq<char>,
> {
    match words(f, 0, 5, line) {
        Err(e) => Err(e),
        Ok(a) => match field(f, 5, line) {
            Err(e) => Err(e),
            Ok(name) => if octet_len(name) != a[1] {
                Err(
                    at_line(
                        line,
                        "name length "@ + decimal(octet_len(name)) + " != header "@ + decimal(
                            a[1] as nat,
                        ),
                    ),
                )
            } else {
                match words(f, 6, 8, line) {
                    Err(e) => Err(e),
                    Ok(b) => Ok((a, name, b)),
                }
            },
        },
    }
}

/// The lists behind those fields.
#[verifier::opaque]
pub open spec fn tail(f: Seq<Seq<char>>, n_tl: nat, n_key: nat, e_len: u32, line: nat) -> Result<
    (Seq<BlobView>, Seq<DumpKeyView>, Seq<u8>),
    Seq<char>,
> {
    match blobs(f, 14, n_tl, line) {
        Err(e) => Err(e),
        Ok(tl) => match keys(f, (14 + 3 * n_tl) as int, n_key, line) {
            Err(e) => Err(e),
            Ok((ks, i)) => match blob(f, i, e_len, line) {
                Err(e) => Err(e),
                Ok(e_data) => if i + 1 == f.len() {
                    Ok((tl, ks, e_data))
                } else {
                    Err(
                        at_line(
                            line,
                            "extra fields after princ record ("@ + decimal((f.len() - i - 1) as nat)
                                + " leftover)"@,
                        ),
                    )
                },
            },
        },
    }
}

/// The record that fields say.
#[verifier::opaque]
pub open spec fn record(f: Seq<Seq<char>>, line: nat) -> Result<PrincView, Seq<char>> {
    match head(f, line) {
        Err(e) => Err(e),
        Ok((a, name, b)) => match tail(f, a[2] as nat, a[3] as nat, a[4], line) {
            Err(e) => Err(e),
            Ok((tl_data, ks, e_data)) => Ok(
                PrincView {
                    db_len: a[0],
                    name,
                    attributes: b[0],
                    max_life: b[1],
                    max_renewable_life: b[2],
                    expiration: b[3],
                    pw_expiration: b[4],
                    last_success: b[5],
                    last_failed: b[6],
                    fail_auth_count: b[7],
                    tl_data,
                    keys: ks,
                    e_data,
                },
            ),
        },
    }
}

/// The fields of a line: a semicolon at the end of the last one does not
/// count, nor does a last field that is empty.
pub open spec fn line_fields(s: Seq<char>) -> Seq<Seq<char>> {
    let all = split(s, '\t');
    let last = if all.last().len() > 0 && all.last().last() == ';' {
        all.last().drop_last()
    } else {
        all.last()
    };
    if last.len() == 0 {
        all.drop_last()
    } else {
        all.drop_last().push(last)
    }
}

/// The version that a header says.
pub open spec fn header(line: Seq<char>) -> Result<u32, Seq<char>> {
    let prefix = "kdb5_util load_dump version "@;
    if !prefix.is_prefix_of(line) {
        Err("bad dump header: "@ + line)
    } else {
        let rest = line.skip(prefix.len() as int);
        match parsed_nat(trim(rest)) {
            Some(n) => if n > u32::MAX {
                Err("bad dump version: "@ + rest)
            } else if n != KDB_DUMP_VERSION && n != KDB_DUMP_VERSION_R18 {
                Err("unsupported dump version "@ + decimal(n))
            } else {
                Ok(n as u32)
            },
            None => Err("bad dump version: "@ + rest),
        }
    }
}

/// What one line says.
pub enum LineView {
    /// Nothing: it is empty.
    Nothing,
    /// A policy.
    Policy(Seq<char>),
    /// A record.
    Princ(PrincView),
}

/// What the line with a number says.
#[verifier::opaque]
pub open spec fn line_says(s: Seq<char>, line: nat) -> Result<LineView, Seq<char>> {
    if s.len() == 0 {
        Ok(LineView::Nothing)
    } else if "policy\t"@.is_prefix_of(s) {
        Ok(LineView::Policy(s.skip("policy\t"@.len() as int)))
    } else if "princ\t"@.is_prefix_of(s) {
        match record(line_fields(s.skip("princ\t"@.len() as int)), line) {
            Err(e) => Err(e),
            Ok(p) => Ok(LineView::Princ(p)),
        }
    } else {
        Err(at_line(line, "unknown record type"@))
    }
}

/// The records and the policies that lines say, the first of them being line
/// number `line`.
pub open spec fn records(ls: Seq<Seq<char>>, line: nat) -> Result<
    (Seq<PrincView>, Seq<Seq<char>>),
    Seq<char>,
>
    decreases ls.len(),
{
    if ls.len() == 0 {
        Ok((Seq::empty(), Seq::empty()))
    } else {
        match line_says(ls[0], line) {
            Err(e) => Err(e),
            Ok(kind) => match records(ls.drop_first(), line + 1) {
                Err(e) => Err(e),
                Ok((ps, qs)) => match kind {
                    LineView::Nothing => Ok((ps, qs)),
                    LineView::Policy(q) => Ok((ps, seq![q] + qs)),
                    LineView::Princ(p) => Ok((seq![p] + ps, qs)),
                },
            },
        }
    }
}

/// The dump that a text says.
pub open spec fn spec_parse_dump(text: Seq<char>) -> Result<FileView, Seq<char>> {
    let ls = lines(text);
    if ls.len() == 0 {
        Err("empty dump"@)
    } else {
        match header(ls[0]) {
            Err(e) => Err(e),
            Ok(version) => match records(ls.drop_first(), 2) {
                Err(e) => Err(e),
                Ok((princs, policies)) => if princs.len() == 0 {
                    Err("dump has no princ records"@)
                } else {
                    Ok(FileView { version, princs, policies })
                },
            },
        }
    }
}

/// A record being read: its fields, and the number of its line.
struct Cursor {
    f: Vec<Vec<char>>,
    line: usize,
}

impl Cursor {
    spec fn fields(&self) -> Seq<Seq<char>> {
        char_lists(self.f@)
    }

    fn err(&self, msg: &str) -> (r: DumpError)
        ensures
            r matches DumpError::Format(m) && m@ == at_line(self.line as nat, msg@),
    {
        line_error(self.line, msg)
    }

    fn not_an_integer(&self, i: usize) -> (r: DumpError)
        requires
            i < self.f@.len(),
        ensures
            r matches DumpError::Format(m) && m@ == at_line(
                self.line as nat,
                "not an integer: "@ + self.fields()[i as int],
            ),
    {
        let s = string_of(self.f[i].as_slice());
        let msg = concat("not an integer: ", s.as_str());
        self.err(msg.as_str())
    }

    fn u32(&self, i: usize) -> (r: Result<u32, DumpError>)
        ensures
            match r {
                Ok(v) => word(self.fields(), i as int, self.line as nat) == Ok::<u32, Seq<char>>(v)
                    && i < self.f@.len(),
                Err(e) => e matches DumpError::Format(m) && word(
                    self.fields(),
                    i as int,
                    self.line as nat,
                ) == Err::<u32, Seq<char>>(m@),
            },
    {
        if i >= self.f.len() {
            return Err(self.err("truncated princ record"));
        }
        match parse_unsigned(self.f[i].as_slice(), 0xffff_ffff) {
            Some(n) => Ok(n as u32),
            None => Err(self.not_an_integer(i)),
        }
    }

    fn i32(&self, i: usize) -> (r: Result<i32, DumpError>)
        ensures
            match r {
                Ok(v) => signed_word(self.fields(), i as int, self.line as nat) == Ok::<
                    i32,
                    Seq<char>,
                >(v) && i < self.f@.len(),
                Err(e) => e matches DumpError::Format(m) && signed_word(
                    self.fields(),
                    i as int,
                    self.line as nat,
                ) == Err::<i32, Seq<char>>(m@),
            },
    {
        if i >= self.f.len() {
            return Err(self.err("truncated princ record"));
        }
        match parse_signed(self.f[i].as_slice()) {
            Some(n) => if -0x8000_0000 <= n && n <= 0x7fff_ffff {
                Ok(n as i32)
            } else {
                Err(self.not_an_integer(i))
            },
            None => Err(self.not_an_integer(i)),
        }
    }

    fn words(&self, i: usize, n: usize) -> (r: Result<Vec<u32>, DumpError>)
        requires
            i + n <= usize::MAX,
        ensures
            match r {
                Ok(v) => words(self.fields(), i as int, n as nat, self.line as nat) == Ok::<
                    Seq<u32>,
                    Seq<char>,
                >(v@) && v@.len() == n,
                Err(e) => e matches DumpError::Format(m) && words(
                    self.fields(),
                    i as int,
                    n as nat,
                    self.line as nat,
                ) == Err::<Seq<u32>, Seq<char>>(m@),
            },
    {
        let mut out: Vec<u32> = Vec::new();
        let mut k: usize = 0;
        proof {
            assert(out@ =~= Seq::<u32>::empty());
        }
        while k < n
            invariant
                k <= n,
                i + n <= usize::MAX,
                out@.len() == k,
                words(self.fields(), i as int, k as nat, self.line as nat) == Ok::<
                    Seq<u32>,
                    Seq<char>,
                >(out@),
            decreases n - k,
        {
            match self.u32(i + k) {
                Ok(w) => {
                    out.push(w);
                },
                Err(e) => {
                    proof {
                        lemma_words_fail(
                            self.fields(),
                            i as int,
                            (k + 1) as nat,
                            n as nat,
                            self.line as nat,
                        );
                    }
                    return Err(e);
                },
            }
            k = k + 1;
        }
        Ok(out)
    }

    fn hex(&self, i: usize, len: u32) -> (r: Result<Vec<u8>, DumpError>)
        ensures
            match r {
                Ok(v) => blob(self.fields(), i as int, len, self.line as nat) == Ok::<
                    Seq<u8>,
                    Seq<char>,
                >(v@),
                Err(e) => e matches DumpError::Format(m) && blob(
                    self.fields(),
                    i as int,
                    len,
                    self.line as nat,
                ) == Err::<Seq<u8>, Seq<char>>(m@),
            },
    {
        if i >= self.f.len() {
            return Err(self.err("truncated princ record"));
        }
        if len == 0 {
            let s = string_of(self.f[i].as_slice());
            if !str_eq(s.as_str(), "-1") {
                return Err(self.err("empty blob must be -1"));
            }
            let none: Vec<u8> = Vec::new();
            proof {
                assert(none@ =~= Seq::<u8>::empty());
            }
            return Ok(none);
        }
        match parse_hex(self.f[i].as_slice()) {
            None => {
                let s = string_of(self.f[i].as_slice());
                let msg = concat("bad hex: ", s.as_str());
                Err(self.err(msg.as_str()))
            },
            Some(b) => if b.len() as u64 == len as u64 {
                Ok(b)
            } else {
                let mut msg = concat("hex decoded ", "");
                proof {
                    reveal_strlit("");
                    assert(msg@ =~= "hex decoded "@);
                }
                push_decimal(&mut msg, b.len() as u64);
                msg.append(" bytes, header ");
                push_decimal(&mut msg, len as u64);
                Err(self.err(msg.as_str()))
            },
        }
    }

    fn typed(&self, i: usize) -> (r: Result<(i32, Vec<u8>), DumpError>)
        requires
            i + 2 <= usize::MAX,
        ensures
            match r {
                Ok((ty, v)) => typed_blob(self.fields(), i as int, self.line as nat) == Ok::<
                    BlobView,
                    Seq<char>,
                >((BlobView { ty, contents: v@ })),
                Err(e) => e matches DumpError::Format(m) && typed_blob(
                    self.fields(),
                    i as int,
                    self.line as nat,
                ) == Err::<BlobView, Seq<char>>(m@),
            },
    {
        let ty: i32 = match self.i32(i) {
            Ok(v) => v,
            Err(e) => {
                return Err(e);
            },
        };
        let len: u32 = match self.u32(i + 1) {
            Ok(v) => v,
            Err(e) => {
                return Err(e);
            },
        };
        match self.hex(i + 2, len) {
            Ok(contents) => Ok((ty, contents)),
            Err(e) => Err(e),
        }
    }

    fn slots(&self, i: usize, n: usize) -> (r: Result<Vec<DumpKeySlot>, DumpError>)
        requires
            i <= self.f@.len(),
            n <= u32::MAX,
        ensures
            match r {
                Ok(v) => blobs(self.fields(), i as int, n as nat, self.line as nat) == Ok::<
                    Seq<BlobView>,
                    Seq<char>,
                >(slot_views(v@)) && i + 3 * n <= self.f@.len() && v@.len() == n,
                Err(e) => e matches DumpError::Format(m) && blobs(
                    self.fields(),
                    i as int,
                    n as nat,
                    self.line as nat,
                ) == Err::<Seq<BlobView>, Seq<char>>(m@),
            },
    {
        let mut out: Vec<DumpKeySlot> = Vec::new();
        let mut at: usize = i;
        let mut k: usize = 0;
        proof {
            assert(slot_views(out@) =~= Seq::<BlobView>::empty());
        }
        while k < n
            invariant
                k <= n,
                n <= u32::MAX,
                out@.len() == k,
                at == i + 3 * k,
                at <= self.f@.len(),
                blobs(self.fields(), i as int, k as nat, self.line as nat) == Ok::<
                    Seq<BlobView>,
                    Seq<char>,
                >(slot_views(out@)),
            decreases n - k,
        {
            let ghost before = out@;
            if at >= self.f.len() || self.f.len() - at < 3 {
                proof {
                    assert(typed_blob(self.fields(), at as int, self.line as nat) is Err);
                    lemma_blobs_fail(
                        self.fields(),
                        i as int,
                        (k + 1) as nat,
                        n as nat,
                        self.line as nat,
                    );
                }
                return self.short_blob(at);
            }
            match self.typed(at) {
                Ok((ty, contents)) => {
                    let one = DumpKeySlot { ty, contents };
                    out.push(one);
                    proof {
                        assert(slot_views(out@) =~= slot_views(before).push(one@));
                    }
                },
                Err(e) => {
                    proof {
                        lemma_blobs_fail(
                            self.fields(),
                            i as int,
                            (k + 1) as nat,
                            n as nat,
                            self.line as nat,
                        );
                    }
                    return Err(e);
                },
            }
            k = k + 1;
            at = at + 3;
        }
        Ok(out)
    }

    /// The error of a type with octets whose fields are not all there.
    fn short_blob(&self, i: usize) -> (r: Result<Vec<DumpKeySlot>, DumpError>)
        requires
            i <= self.f@.len(),
            self.f@.len() < i + 3,
        ensures
            r matches Err(DumpError::Format(m)) && typed_blob(
                self.fields(),
                i as int,
                self.line as nat,
            ) == Err::<BlobView, Seq<char>>(m@),
    {
        if i >= self.f.len() {
            return Err(self.err("truncated princ record"));
        }
        match self.i32(i) {
            Ok(_) => {},
            Err(e) => {
                return Err(e);
            },
        }
        match self.u32(i + 1) {
            Ok(_) => {},
            Err(e) => {
                return Err(e);
            },
        }
        Err(self.err("truncated princ record"))
    }

    fn keys(&self, i: usize, n: u32) -> (r: Result<(Vec<DumpKeyData>, usize), DumpError>)
        requires
            i <= self.f@.len(),
        ensures
            match r {
                Ok((v, j)) => keys(self.fields(), i as int, n as nat, self.line as nat) == Ok::<
                    (Seq<DumpKeyView>, int),
                    Seq<char>,
                >((dump_key_views(v@), j as int)) && j <= self.f@.len(),
                Err(e) => e matches DumpError::Format(m) && keys(
                    self.fields(),
                    i as int,
                    n as nat,
                    self.line as nat,
                ) == Err::<(Seq<DumpKeyView>, int), Seq<char>>(m@),
            },
    {
        let mut out: Vec<DumpKeyData> = Vec::new();
        let mut at: usize = i;
        let mut k: u32 = 0;
        proof {
            assert(dump_key_views(out@) =~= Seq::<DumpKeyView>::empty());
        }
        while k < n
            invariant
                k <= n,
                at <= self.f@.len(),
                keys(self.fields(), i as int, k as nat, self.line as nat) == Ok::<
                    (Seq<DumpKeyView>, int),
                    Seq<char>,
                >((dump_key_views(out@), at as int)),
            decreases n - k,
        {
            let ghost before = out@;
            match self.key(at) {
                Ok((one, next)) => {
                    let ghost view = one@;
                    out.push(one);
                    proof {
                        assert(dump_key_views(out@) =~= dump_key_views(before).push(view));
                    }
                    at = next;
                },
                Err(e) => {
                    proof {
                        lemma_keys_fail(
                            self.fields(),
                            i as int,
                            (k + 1) as nat,
                            n as nat,
                            self.line as nat,
                        );
                    }
                    return Err(e);
                },
            }
            k = k + 1;
        }
        Ok((out, at))
    }

    fn key(&self, i: usize) -> (r: Result<(DumpKeyData, usize), DumpError>)
        requires
            i <= self.f@.len(),
        ensures
            match r {
                Ok((v, j)) => key(self.fields(), i as int, self.line as nat) == Ok::<
                    (DumpKeyView, int),
                    Seq<char>,
                >((v@, j as int)) && j <= self.f@.len(),
                Err(e) => e matches DumpError::Format(m) && key(
                    self.fields(),
                    i as int,
                    self.line as nat,
                ) == Err::<(DumpKeyView, int), Seq<char>>(m@),
            },
    {
        if i >= self.f.len() {
            return Err(self.err("truncated princ record"));
        }
        let ver: i32 = match self.i32(i) {
            Ok(v) => v,
            Err(e) => {
                return Err(e);
            },
        };
        if ver != 1 && ver != 2 {
            let mut msg = concat("unsupported key_data_ver ", "");
            proof {
                reveal_strlit("");
                assert(msg@ =~= "unsupported key_data_ver "@);
            }
            push_signed(&mut msg, ver as i64);
            return Err(self.err(msg.as_str()));
        }
        let kvno: u32 = match self.u32(i + 1) {
            Ok(v) => v,
            Err(e) => {
                return Err(e);
            },
        };
        match self.slots(i + 2, ver as usize) {
            Ok(slots) => {
                let k = DumpKeyData { ver, kvno, slots };
                proof {
                    assert(k@.slots =~= slot_views(slots@));
                }
                Ok((k, i + 2 + 3 * (ver as usize)))
            },
            Err(e) => Err(e),
        }
    }
}

/// What slots say.
pub open spec fn slot_views(v: Seq<DumpKeySlot>) -> Seq<BlobView> {
    v.map_values(|s: DumpKeySlot| s@)
}

/// Numbers that cannot be read are not read with more behind them either.
proof fn lemma_words_fail(f: Seq<Seq<char>>, i: int, k: nat, n: nat, line: nat)
    requires
        k <= n,
        words(f, i, k, line) is Err,
    ensures
        words(f, i, n, line) == words(f, i, k, line),
    decreases n,
{
    if k < n {
        lemma_words_fail(f, i, k, (n - 1) as nat, line);
    }
}

/// The same of types with octets.
proof fn lemma_blobs_fail(f: Seq<Seq<char>>, i: int, k: nat, n: nat, line: nat)
    requires
        k <= n,
        blobs(f, i, k, line) is Err,
    ensures
        blobs(f, i, n, line) == blobs(f, i, k, line),
    decreases n,
{
    if k < n {
        lemma_blobs_fail(f, i, k, (n - 1) as nat, line);
    }
}

/// The same of keys.
proof fn lemma_keys_fail(f: Seq<Seq<char>>, i: int, k: nat, n: nat, line: nat)
    requires
        k <= n,
        keys(f, i, k, line) is Err,
    ensures
        keys(f, i, n, line) == keys(f, i, k, line),
    decreases n,
{
    if k < n {
        lemma_keys_fail(f, i, k, (n - 1) as nat, line);
    }
}

/// The tagged data that slots hold.
fn into_tl(v: Vec<DumpKeySlot>) -> (r: Vec<TlData>)
    ensures
        tl_views(r@) == slot_views(v@),
{
    let ghost all = slot_views(v@);
    let mut rest = v;
    let mut out: Vec<TlData> = Vec::new();
    let mut back: Vec<DumpKeySlot> = Vec::new();
    while rest.len() > 0
        invariant
            all == slot_views(rest@) + slot_views(back@).reverse(),
        decreases rest@.len(),
    {
        let ghost before = rest@;
        let ghost b0 = back@;
        match rest.pop() {
            Some(s) => {
                back.push(s);
                proof {
                    assert(slot_views(before) =~= slot_views(rest@).push(s@));
                    assert(slot_views(back@).reverse() =~= seq![s@] + slot_views(b0).reverse());
                    assert(all =~= slot_views(rest@) + slot_views(back@).reverse());
                }
            },
            None => {},
        }
    }
    proof {
        assert(all =~= slot_views(back@).reverse());
        assert(tl_views(out@) + slot_views(back@).reverse() =~= all);
    }
    while back.len() > 0
        invariant
            all == tl_views(out@) + slot_views(back@).reverse(),
        decreases back@.len(),
    {
        let ghost before = back@;
        let ghost o0 = out@;
        match back.pop() {
            Some(s) => {
                let t = TlData { ty: s.ty, contents: s.contents };
                out.push(t);
                proof {
                    assert(slot_views(before) =~= slot_views(back@).push(s@));
                    assert(slot_views(before).reverse() =~= seq![s@] + slot_views(back@).reverse());
                    assert(tl_views(out@) =~= tl_views(o0).push(s@));
                    assert(all =~= tl_views(out@) + slot_views(back@).reverse());
                }
            },
            None => {},
        }
    }
    proof {
        assert(all =~= tl_views(out@));
    }
    out
}

/// Reads a record out of its line, without the word in front.
fn parse_princ_line(rest: &[char], line: usize) -> (r: Result<DumpPrincipal, DumpError>)
    ensures
        match r {
            Ok(v) => record(line_fields(rest@), line as nat) == Ok::<PrincView, Seq<char>>(v@),
            Err(e) => e matches DumpError::Format(m) && record(line_fields(rest@), line as nat)
                == Err::<PrincView, Seq<char>>(m@),
        },
{
    proof {
        reveal(record);
        reveal(head);
        reveal(tail);
    }
    let c = Cursor { f: fields_of_line(rest), line };
    let ghost f = c.fields();
    let ghost ln = line as nat;
    let a: Vec<u32> = match c.words(0, 5) {
        Ok(v) => v,
        Err(e) => {
            return Err(e);
        },
    };
    if c.f.len() <= 5 {
        return Err(c.err("truncated princ record"));
    }
    let name: String = string_of(c.f[5].as_slice());
    let len: usize = name.as_str().as_bytes().len();
    if len as u64 != a[1] as u64 {
        let mut msg = concat("name length ", "");
        proof {
            reveal_strlit("");
            assert(msg@ =~= "name length "@);
        }
        push_decimal(&mut msg, len as u64);
        msg.append(" != header ");
        push_decimal(&mut msg, a[1] as u64);
        return Err(c.err(msg.as_str()));
    }
    let b: Vec<u32> = match c.words(6, 8) {
        Ok(v) => v,
        Err(e) => {
            return Err(e);
        },
    };
    proof {
        assert(head(f, ln) == Ok::<(Seq<u32>, Seq<char>, Seq<u32>), Seq<char>>((a@, name@, b@)));
        lemma_words_there(f, 6, 8, ln);
    }
    let tl_slots: Vec<DumpKeySlot> = match c.slots(14, a[2] as usize) {
        Ok(v) => v,
        Err(e) => {
            return Err(e);
        },
    };
    let tl_data: Vec<TlData> = into_tl(tl_slots);
    let (ks, i): (Vec<DumpKeyData>, usize) = match c.keys(14 + 3 * (a[2] as usize), a[3]) {
        Ok(p) => p,
        Err(e) => {
            return Err(e);
        },
    };
    let e_data: Vec<u8> = match c.hex(i, a[4]) {
        Ok(v) => v,
        Err(e) => {
            return Err(e);
        },
    };
    if i + 1 != c.f.len() {
        let mut msg = concat("extra fields after princ record (", "");
        proof {
            reveal_strlit("");
            assert(msg@ =~= "extra fields after princ record ("@);
        }
        push_decimal(&mut msg, (c.f.len() - i - 1) as u64);
        msg.append(" leftover)");
        return Err(c.err(msg.as_str()));
    }
    Ok(
        DumpPrincipal {
            db_len: a[0],
            name,
            attributes: b[0],
            max_life: b[1],
            max_renewable_life: b[2],
            expiration: b[3],
            pw_expiration: b[4],
            last_success: b[5],
            last_failed: b[6],
            fail_auth_count: b[7],
            tl_data,
            keys: ks,
            e_data,
        },
    )
}

/// Numbers that were read stand in fields.
proof fn lemma_words_there(f: Seq<Seq<char>>, i: int, n: nat, line: nat)
    requires
        words(f, i, n, line) is Ok,
        n > 0,
    ensures
        i + n <= f.len(),
        (words(f, i, n, line)->Ok_0).len() == n,
    decreases n,
{
    if n > 1 {
        lemma_words_there(f, i, (n - 1) as nat, line);
    } else {
        assert(words(f, i, 0, line) is Ok);
    }
}

/// The fields of a line.
fn fields_of_line(cs: &[char]) -> (r: Vec<Vec<char>>)
    ensures
        char_lists(r@) == line_fields(cs@),
{
    let parts: Vec<String> = split_chars(cs, '\t');
    proof {
        crate::text::lemma_split_step(cs@, '\t');
    }
    let mut out: Vec<Vec<char>> = Vec::new();
    let n: usize = parts.len() - 1;
    let ghost all = split(cs@, '\t');
    let mut i: usize = 0;
    proof {
        assert(char_lists(out@) =~= all.take(0));
    }
    while i < n
        invariant
            i <= n,
            n + 1 == parts@.len(),
            all == views(parts@),
            char_lists(out@) == all.take(i as int),
        decreases n - i,
    {
        let ghost before = out@;
        let one = chars_of(parts[i].as_str());
        let ghost view = one@;
        out.push(one);
        proof {
            assert(view == all[i as int]);
            assert(char_lists(out@) =~= char_lists(before).push(view));
            assert(all.take(i + 1) =~= all.take(i as int).push(view));
        }
        i = i + 1;
    }
    let mut last: Vec<char> = chars_of(parts[n].as_str());
    proof {
        assert(last@ == all.last());
        assert(all.take(n as int) =~= all.drop_last());
    }
    if last.len() > 0 && last[last.len() - 1] == ';' {
        let ghost before = last@;
        let gone = last.pop();
        proof {
            assert(last@ =~= before.drop_last());
        }
    }
    if last.len() > 0 {
        let ghost before = out@;
        let ghost view = last@;
        out.push(last);
        proof {
            assert(char_lists(out@) =~= char_lists(before).push(view));
        }
    }
    out
}

/// Reads the header.
fn parse_header(line: &[char]) -> (r: Result<u32, DumpError>)
    ensures
        match r {
            Ok(v) => header(line@) == Ok::<u32, Seq<char>>(v),
            Err(e) => e matches DumpError::Format(m) && header(line@) == Err::<u32, Seq<char>>(m@),
        },
{
    let prefix: &str = "kdb5_util load_dump version ";
    proof {
        reveal_strlit("kdb5_util load_dump version ");
    }
    if !has_prefix(line, prefix) {
        let s = string_of(line);
        return Err(DumpError::Format(concat("bad dump header: ", s.as_str())));
    }
    let rest: &[char] = slice_subrange(line, 28, line.len());
    proof {
        assert(rest@ =~= line@.skip(28));
    }
    let (i, j): (usize, usize) = trim_range(rest);
    match parse_unsigned(slice_subrange(rest, i, j), 0xffff_ffff) {
        Some(n) => if n as u32 != KDB_DUMP_VERSION && n as u32 != KDB_DUMP_VERSION_R18 {
            let mut msg = concat("unsupported dump version ", "");
            proof {
                reveal_strlit("");
                assert(msg@ =~= "unsupported dump version "@);
            }
            push_decimal(&mut msg, n);
            Err(DumpError::Format(msg))
        } else {
            Ok(n as u32)
        },
        None => {
            let s = string_of(rest);
            Err(DumpError::Format(concat("bad dump version: ", s.as_str())))
        },
    }
}

/// An error in a later line is the error of all lines, where the lines in
/// front are in order; what lines in front say comes first.
spec fn with_front(
    ps: Seq<PrincView>,
    qs: Seq<Seq<char>>,
    rest: Result<(Seq<PrincView>, Seq<Seq<char>>), Seq<char>>,
) -> Result<(Seq<PrincView>, Seq<Seq<char>>), Seq<char>> {
    match rest {
        Err(e) => Err(e),
        Ok((a, b)) => Ok((ps + a, qs + b)),
    }
}

/// What one line says.
enum Line {
    /// Nothing.
    Nothing,
    /// A policy.
    Policy(String),
    /// A record.
    Princ(DumpPrincipal),
}

impl View for Line {
    type V = LineView;

    closed spec fn view(&self) -> LineView {
        match self {
            Line::Nothing => LineView::Nothing,
            Line::Policy(s) => LineView::Policy(s@),
            Line::Princ(p) => LineView::Princ(p@),
        }
    }
}

/// Reads one line.
fn parse_line(line: &[char], number: usize) -> (r: Result<Line, DumpError>)
    ensures
        match r {
            Ok(v) => line_says(line@, number as nat) == Ok::<LineView, Seq<char>>(v@),
            Err(e) => e matches DumpError::Format(m) && line_says(line@, number as nat) == Err::<
                LineView,
                Seq<char>,
            >(m@),
        },
{
    proof {
        reveal(line_says);
        reveal_strlit("policy\t");
        reveal_strlit("princ\t");
    }
    if line.len() == 0 {
        return Ok(Line::Nothing);
    }
    if has_prefix(line, "policy\t") {
        let rest = range_string(line, 7, line.len());
        proof {
            assert(rest@ =~= line@.skip(7));
        }
        return Ok(Line::Policy(rest));
    }
    if has_prefix(line, "princ\t") {
        let rest: &[char] = slice_subrange(line, 6, line.len());
        proof {
            assert(rest@ =~= line@.skip(6));
        }
        return match parse_princ_line(rest, number) {
            Ok(p) => Ok(Line::Princ(p)),
            Err(e) => Err(e),
        };
    }
    Err(line_error(number, "unknown record type"))
}

/// Reads a dump.
pub fn parse_dump(text: &str) -> (r: Result<DumpFile, DumpError>)
    ensures
        match r {
            Ok(v) => spec_parse_dump(text@) == Ok::<FileView, Seq<char>>(v@),
            Err(e) => e matches DumpError::Format(m) && spec_parse_dump(text@) == Err::<
                FileView,
                Seq<char>,
            >(m@),
        },
{
    let ls = lines_of(text);
    let ghost all = lines(text@);
    proof {
        assert(all.len() == ls@.len());
        assert forall|k: int| 0 <= k < ls@.len() implies all[k] == (#[trigger] ls@[k])@ by {
            assert(char_lists(ls@)[k] == ls@[k]@);
        }
    }
    if ls.len() == 0 {
        return Err(DumpError::Format("empty dump".to_owned()));
    }
    let version: u32 = match parse_header(ls[0].as_slice()) {
        Ok(v) => v,
        Err(e) => {
            return Err(e);
        },
    };
    let mut princs: Vec<DumpPrincipal> = Vec::new();
    let mut policies: Vec<String> = Vec::new();
    let ghost body = all.drop_first();
    let mut i: usize = 1;
    proof {
        assert(body.skip(0) =~= body);
        match records(body, 2) {
            Ok((a, b)) => {
                assert(princ_views(princs@) + a =~= a);
                assert(views(policies@) + b =~= b);
            },
            Err(e) => {},
        }
    }
    while i < ls.len()
        invariant
            1 <= i <= ls@.len(),
            all == lines(text@),
            header(all[0]) == Ok::<u32, Seq<char>>(version),
            all.len() == ls@.len(),
            body == all.drop_first(),
            forall|k: int| 0 <= k < ls@.len() ==> all[k] == (#[trigger] ls@[k])@,
            records(body, 2) == with_front(
                princ_views(princs@),
                views(policies@),
                records(body.skip(i - 1), (i + 1) as nat),
            ),
        decreases ls@.len() - i,
    {
        let ghost here = body.skip(i - 1);
        let ghost later = records(body.skip(i as int), (i + 2) as nat);
        let ghost ps = princ_views(princs@);
        let ghost qs = views(policies@);
        proof {
            assert(here[0] == ls@[i as int]@);
            assert(here.drop_first() =~= body.skip(i as int));
        }
        match parse_line(ls[i].as_slice(), i + 1) {
            Err(e) => {
                return Err(e);
            },
            Ok(Line::Nothing) => {},
            Ok(Line::Policy(q)) => {
                let ghost before = policies@;
                let ghost view = q@;
                policies.push(q);
                proof {
                    assert(views(policies@) =~= views(before).push(view));
                    match later {
                        Ok((a, b)) => {
                            assert(qs + (seq![view] + b) =~= views(policies@) + b);
                        },
                        Err(e) => {},
                    }
                }
            },
            Ok(Line::Princ(p)) => {
                let ghost before = princs@;
                let ghost view = p@;
                princs.push(p);
                proof {
                    assert(princ_views(princs@) =~= princ_views(before).push(view));
                    match later {
                        Ok((a, b)) => {
                            assert(ps + (seq![view] + a) =~= princ_views(princs@) + a);
                        },
                        Err(e) => {},
                    }
                }
            },
        }
        i = i + 1;
    }
    proof {
        assert(body.skip(i - 1) =~= Seq::<Seq<char>>::empty());
        assert(princ_views(princs@) + Seq::<PrincView>::empty() =~= princ_views(princs@));
        assert(views(policies@) + Seq::<Seq<char>>::empty() =~= views(policies@));
    }
    if princs.len() == 0 {
        return Err(DumpError::Format("dump has no princ records".to_owned()));
    }
    Ok(DumpFile { version, princs, policies })
}

/// The realm of a dump: that of its first record.
pub open spec fn spec_realm(f: FileView) -> Result<Seq<char>, Seq<char>> {
    if f.princs.len() == 0 {
        Err("dump has no princ records"@)
    } else {
        let name = f.princs[0].name;
        let at = last_position(name, '@');
        if at < 0 || at == name.len() - 1 {
            Err("missing realm in "@ + name)
        } else {
            Ok(name.skip(at + 1))
        }
    }
}

impl DumpFile {
    /// The realm, taken from the first record's name.
    pub fn realm(&self) -> (r: Result<String, DumpError>)
        ensures
            match r {
                Ok(v) => spec_realm(self@) == Ok::<Seq<char>, Seq<char>>(v@),
                Err(e) => e matches DumpError::Format(m) && spec_realm(self@) == Err::<
                    Seq<char>,
                    Seq<char>,
                >(m@),
            },
    {
        if self.princs.len() == 0 {
            return Err(DumpError::Format("dump has no princ records".to_owned()));
        }
        proof {
            assert(self@.princs[0] == self.princs@[0]@);
        }
        let name: &str = self.princs[0].name.as_str();
        let cs = chars_of(name);
        proof {
            lemma_last_position(cs@, '@');
        }
        match last_position_of(cs.as_slice(), '@') {
            Some(at) => if at + 1 < cs.len() {
                let realm = range_string(cs.as_slice(), at + 1, cs.len());
                proof {
                    assert(realm@ =~= cs@.skip(at + 1));
                }
                Ok(realm)
            } else {
                Err(DumpError::Format(concat("missing realm in ", name)))
            },
            None => Err(DumpError::Format(concat("missing realm in ", name))),
        }
    }

    /// The first record of a principal.
    pub fn princ(&self, unparsed: &str) -> (r: Option<&DumpPrincipal>)
        ensures
            match r {
                Some(p) => exists|i: int|
                    *p == (#[trigger] self.princs@[i]) && is_first_named(
                        self.princs@,
                        unparsed@,
                        i,
                    ),
                None => forall|k: int|
                    0 <= k < self.princs@.len() ==> (#[trigger] self.princs@[k]).name@
                        != unparsed@,
            },
    {
        let mut i: usize = 0;
        while i < self.princs.len()
            invariant
                i <= self.princs@.len(),
                forall|k: int| 0 <= k < i ==> (#[trigger] self.princs@[k]).name@ != unparsed@,
            decreases self.princs@.len() - i,
        {
            if str_eq(self.princs[i].name.as_str(), unparsed) {
                return Some(&self.princs[i]);
            }
            i = i + 1;
        }
        None
    }
}

/// A header names one of two versions; a dump of another is refused with its
/// number.
pub proof fn law_header_names_a_version(n: u32)
    ensures
        ({
            let line = "kdb5_util load_dump version "@ + decimal(n as nat);
            &&& header(line) is Ok <==> (n == 6 || n == 7)
            &&& header(line) matches Ok(v) ==> v == n
            &&& header(line) is Err ==> header(line) == Err::<u32, Seq<char>>(
                "unsupported dump version "@ + decimal(n as nat),
            )
        }),
{
    let prefix = "kdb5_util load_dump version "@;
    let d = decimal(n as nat);
    let line = prefix + d;
    assert(line.skip(prefix.len() as int) =~= d);
    assert(prefix.is_prefix_of(line)) by {
        assert(line.subrange(0, prefix.len() as int) =~= prefix);
    }
    law_decimal_round_trip(n as nat);
    assert(d.last() == digit_char((n % 10) as int));
    assert(trim_end(d) == d);
    assert(trim(d) == d);
}

/// A first line that does not start as a header does is refused with its text.
pub proof fn law_other_header_is_refused(line: Seq<char>)
    requires
        !"kdb5_util load_dump version "@.is_prefix_of(line),
    ensures
        header(line) == Err::<u32, Seq<char>>("bad dump header: "@ + line),
{
}

/// The lines of a dump are read in order: an empty one says nothing, a policy
/// is kept as it stands, and a record is added to the records; a line of
/// another kind makes the dump wrong.
pub proof fn law_lines_say_records(s: Seq<char>, ls: Seq<Seq<char>>, line: nat)
    requires
        records(ls, line + 1) is Ok,
    ensures
        s.len() == 0 ==> records(seq![s] + ls, line) == records(ls, line + 1),
        records(seq!["policy\t"@ + s] + ls, line) matches Ok(t) && t.0 == records(
            ls,
            line + 1,
        )->Ok_0.0 && t.1 == seq![s] + records(ls, line + 1)->Ok_0.1,
        match record(line_fields(s), line) {
            Ok(p) => records(seq!["princ\t"@ + s] + ls, line) matches Ok(t) && t.0 == seq![p]
                + records(ls, line + 1)->Ok_0.0 && t.1 == records(ls, line + 1)->Ok_0.1,
            Err(e) => records(seq!["princ\t"@ + s] + ls, line) == Err::<
                (Seq<PrincView>, Seq<Seq<char>>),
                Seq<char>,
            >(e),
        },
        s.len() > 0 && !"policy\t"@.is_prefix_of(s) && !"princ\t"@.is_prefix_of(s) ==> records(
            seq![s] + ls,
            line,
        ) == Err::<(Seq<PrincView>, Seq<Seq<char>>), Seq<char>>(
            at_line(line, "unknown record type"@),
        ),
{
    reveal(line_says);
    reveal_strlit("policy\t");
    reveal_strlit("princ\t");
    let policy = "policy\t"@ + s;
    let princ = "princ\t"@ + s;
    assert((seq![s] + ls)[0] == s);
    assert((seq![s] + ls).drop_first() =~= ls);
    assert((seq![policy] + ls)[0] == policy);
    assert((seq![policy] + ls).drop_first() =~= ls);
    assert((seq![princ] + ls)[0] == princ);
    assert((seq![princ] + ls).drop_first() =~= ls);
    assert(policy.skip(7) =~= s);
    assert(princ.skip(6) =~= s);
    assert("policy\t"@.is_prefix_of(policy)) by {
        assert(policy.subrange(0, 7) =~= "policy\t"@);
    }
    assert("princ\t"@.is_prefix_of(princ)) by {
        assert(princ.subrange(0, 6) =~= "princ\t"@);
    }
    assert(princ[1] == 'r');
    assert("policy\t"@[1] == 'o');
    assert(!"policy\t"@.is_prefix_of(princ)) by {
        if "policy\t"@.is_prefix_of(princ) {
            assert(princ.subrange(0, 7)[1] == princ[1]);
        }
    }
}

/// A record is wrong where a line behind it is: one wrong line makes a dump
/// wrong.
pub proof fn law_wrong_line_makes_the_dump_wrong(s: Seq<char>, ls: Seq<Seq<char>>, line: nat)
    ensures
        line_says(s, line) is Err || records(ls, line + 1) is Err <==> records(
            seq![s] + ls,
            line,
        ) is Err,
        line_says(s, line) matches Err(e) ==> records(seq![s] + ls, line) == Err::<
            (Seq<PrincView>, Seq<Seq<char>>),
            Seq<char>,
        >(e),
{
    assert((seq![s] + ls)[0] == s);
    assert((seq![s] + ls).drop_first() =~= ls);
}

/// Octets in a dump are in hexadecimal and as many as the dump says; none are
/// written as -1.
pub proof fn law_octets_have_their_length(f: Seq<Seq<char>>, i: int, len: u32, line: nat)
    requires
        0 <= i < f.len(),
    ensures
        blob(f, i, len, line) is Ok <==> if len == 0 {
            f[i] == "-1"@
        } else {
            unhex(f[i]) matches Some(b) && b.len() == len
        },
        blob(f, i, len, line) matches Ok(b) ==> b.len() == len && (len > 0 ==> unhex(f[i]) == Some(
            b,
        )),
{
}

/// The realm of a dump is what stands behind the last at sign of its first
/// name.
pub proof fn law_realm_is_behind_the_name(f: FileView, left: Seq<char>, realm: Seq<char>)
    requires
        f.princs.len() > 0,
        f.princs[0].name == left.push('@') + realm,
        !realm.contains('@'),
    ensures
        realm.len() > 0 ==> spec_realm(f) == Ok::<Seq<char>, Seq<char>>(realm),
        realm.len() == 0 ==> spec_realm(f) is Err,
{
    let name = f.princs[0].name;
    lemma_last_position(name, '@');
    let at = last_position(name, '@');
    assert(name[left.len() as int] == '@');
    if at > left.len() {
        assert(realm[at - left.len() - 1] == name[at]);
        assert(realm.contains('@'));
    }
    assert(at == left.len());
    assert(name.skip(at + 1) =~= realm);
}

/// A dump without a record is refused.
pub proof fn law_dump_has_a_record(text: Seq<char>)
    ensures
        spec_parse_dump(text) matches Ok(f) ==> f.princs.len() > 0,
        lines(text).len() == 0 ==> spec_parse_dump(text) == Err::<FileView, Seq<char>>(
            "empty dump"@,
        ),
{
}

/// A semicolon behind the last field does not count.
pub proof fn law_last_semicolon_is_dropped(s: Seq<char>)
    requires
        s.len() > 0,
        s.last() != ';',
        s.last() != '\t',
    ensures
        line_fields(s.push(';')) == line_fields(s),
        line_fields(s) == split(s, '\t'),
{
    lemma_push_last(s, ';');
    let all = split(s, '\t');
    let more = split(s.push(';'), '\t');
    assert(more.last() == all.last().push(';'));
    assert(all.last().push(';').drop_last() =~= all.last());
    assert(all.drop_last().push(all.last()) =~= all);
    assert(more.drop_last() =~= all.drop_last());
}

/// A character behind a text that is no separator stands at the end of its last
/// part; the last part is not empty where the text does not end in a separator.
proof fn lemma_push_last(s: Seq<char>, c: char)
    requires
        s.len() > 0,
        s.last() != '\t',
        c != '\t',
    ensures
        split(s, '\t').len() > 0,
        split(s, '\t').last().len() > 0,
        split(s, '\t').last().last() == s.last(),
        split(s.push(c), '\t') == split(s, '\t').drop_last().push(split(s, '\t').last().push(c)),
    decreases s.len(),
{
    lemma_position(s, '\t');
    lemma_position(s.push(c), '\t');
    let p = position(s, '\t');
    let q = position(s.push(c), '\t');
    if p >= s.len() {
        if q < s.push(c).len() {
            assert(s.push(c)[q] == '\t');
            assert(s[q] == '\t');
        }
        assert(seq![s].drop_last().push(s.push(c)) =~= seq![s.push(c)]);
    } else {
        assert(s.push(c)[p] == s[p]);
        if q < p {
            assert(s[q] == s.push(c)[q]);
        }
        assert(q == p);
        let rest = s.skip(p + 1);
        assert(p < s.len() - 1);
        assert(rest.last() == s.last());
        lemma_push_last(rest, c);
        assert(s.push(c).take(p) =~= s.take(p));
        assert(s.push(c).skip(p + 1) =~= rest.push(c));
        let all = seq![s.take(p)] + split(rest, '\t');
        assert(all.drop_last().push(all.last().push(c)) =~= seq![s.take(p)] + split(
            rest,
            '\t',
        ).drop_last().push(split(rest, '\t').last().push(c)));
    }
}

} // verus!
