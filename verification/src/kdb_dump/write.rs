//! Writing a dump, and what reading it gives back.

use crate::kdb_dump::{
    blob, blobs, dump_key_views, head, header, key, keys, line_fields, line_says, octet_len,
    princ_views, record, records, slot_views, spec_parse_dump, tail, tl_views, typed_blob, word,
    words, BlobView, DumpKeyData, DumpKeySlot, DumpKeyView, DumpPrincipal, FileView, LineView,
    PrincView, KDB_DUMP_VERSION,
};
use crate::num::{
    decimal, decimal_int, digit_value, hex, law_decimal_round_trip, law_hex_round_trip,
    law_signed_round_trip, push_decimal, push_hex, push_signed,
};
use crate::store::TlData;
use crate::text::{
    join, join_strings, law_split_of_join, lemma_lines_front, lemma_split_end, lines, split, trim,
    trim_end, views,
};
use vstd::prelude::*;
use vstd::string::*;

verus! {

/// Octets as a field.
pub open spec fn blob_text(b: Seq<u8>) -> Seq<char> {
    if b.len() == 0 {
        "-1"@
    } else {
        hex(b)
    }
}

/// The fields of a type with octets.
pub open spec fn blob_fields(b: BlobView) -> Seq<Seq<char>> {
    seq![decimal_int(b.ty as int), decimal(b.contents.len()), blob_text(b.contents)]
}

/// The fields of types with octets.
pub open spec fn blobs_fields(v: Seq<BlobView>) -> Seq<Seq<char>>
    decreases v.len(),
{
    if v.len() == 0 {
        Seq::empty()
    } else {
        blobs_fields(v.drop_last()) + blob_fields(v.last())
    }
}

/// The fields of a key.
pub open spec fn key_fields(k: DumpKeyView) -> Seq<Seq<char>> {
    seq![decimal_int(k.ver as int), decimal(k.kvno as nat)] + blobs_fields(k.slots)
}

/// The fields of keys.
pub open spec fn keys_fields(v: Seq<DumpKeyView>) -> Seq<Seq<char>>
    decreases v.len(),
{
    if v.len() == 0 {
        Seq::empty()
    } else {
        keys_fields(v.drop_last()) + key_fields(v.last())
    }
}

/// The fields in front of the lists.
#[verifier::opaque]
pub open spec fn head_fields(p: PrincView) -> Seq<Seq<char>> {
    seq![
        decimal(p.db_len as nat),
        decimal(octet_len(p.name)),
        decimal(p.tl_data.len()),
        decimal(p.keys.len()),
        decimal(p.e_data.len()),
        p.name,
        decimal(p.attributes as nat),
        decimal(p.max_life as nat),
        decimal(p.max_renewable_life as nat),
        decimal(p.expiration as nat),
        decimal(p.pw_expiration as nat),
        decimal(p.last_success as nat),
        decimal(p.last_failed as nat),
        decimal(p.fail_auth_count as nat),
    ]
}

/// The fields of a record.
pub open spec fn record_fields(p: PrincView) -> Seq<Seq<char>> {
    head_fields(p) + blobs_fields(p.tl_data) + keys_fields(p.keys) + seq![blob_text(p.e_data)]
}

/// The line of a record.
pub open spec fn record_line(p: PrincView) -> Seq<char> {
    join(seq!["princ"@] + record_fields(p), '\t').push(';')
}

/// The lines of records.
pub open spec fn records_text(v: Seq<PrincView>) -> Seq<char>
    decreases v.len(),
{
    if v.len() == 0 {
        Seq::empty()
    } else {
        record_line(v[0]).push('\n') + records_text(v.drop_first())
    }
}

/// The header.
pub open spec fn header_line() -> Seq<char> {
    "kdb5_util load_dump version "@ + decimal(KDB_DUMP_VERSION as nat)
}

/// The text of a dump of records.
pub open spec fn dump_text(v: Seq<PrincView>) -> Seq<char> {
    header_line().push('\n') + records_text(v)
}

/// A number as a field.
fn number(n: u64) -> (r: String)
    ensures
        r@ == decimal(n as nat),
{
    let mut s = String::new();
    push_decimal(&mut s, n);
    proof {
        assert(s@ =~= decimal(n as nat));
    }
    s
}

/// A signed number as a field.
fn signed_number(n: i32) -> (r: String)
    ensures
        r@ == decimal_int(n as int),
{
    let mut s = String::new();
    push_signed(&mut s, n as i64);
    proof {
        assert(s@ =~= decimal_int(n as int));
    }
    s
}

/// Octets as a field.
fn encode_hex(b: &[u8]) -> (r: String)
    ensures
        r@ == blob_text(b@),
{
    if b.len() == 0 {
        return "-1".to_owned();
    }
    let mut s = String::new();
    push_hex(&mut s, b);
    proof {
        assert(s@ =~= hex(b@));
    }
    s
}

/// Adds a field.
fn put(out: &mut Vec<String>, s: String)
    ensures
        views(final(out)@) == views(old(out)@).push(s@),
{
    out.push(s);
    proof {
        assert(views(out@) =~= views(old(out)@).push(s@));
    }
}

/// Adds the fields of a type with octets.
fn put_blob(out: &mut Vec<String>, ty: i32, contents: &[u8])
    ensures
        views(final(out)@) == views(old(out)@) + blob_fields(BlobView { ty, contents: contents@ }),
{
    put(out, signed_number(ty));
    put(out, number(contents.len() as u64));
    put(out, encode_hex(contents));
    proof {
        assert(views(out@) =~= views(old(out)@) + blob_fields(
            (BlobView { ty, contents: contents@ }),
        ));
    }
}

/// Adds the fields of slots.
fn put_slots(out: &mut Vec<String>, v: &[DumpKeySlot])
    ensures
        views(final(out)@) == views(old(out)@) + blobs_fields(slot_views(v@)),
{
    let ghost before = views(out@);
    let ghost all = slot_views(v@);
    let mut i: usize = 0;
    proof {
        assert(all.take(0) =~= Seq::<BlobView>::empty());
        assert(before + blobs_fields(all.take(0)) =~= before);
    }
    while i < v.len()
        invariant
            i <= v@.len(),
            all == slot_views(v@),
            views(out@) == before + blobs_fields(all.take(i as int)),
        decreases v@.len() - i,
    {
        put_blob(out, v[i].ty, v[i].contents.as_slice());
        proof {
            assert(all.take(i + 1).drop_last() =~= all.take(i as int));
            assert(all.take(i + 1).last() == v@[i as int]@);
            assert(views(out@) =~= before + blobs_fields(all.take(i + 1)));
        }
        i = i + 1;
    }
    proof {
        assert(all.take(all.len() as int) =~= all);
    }
}

/// Adds the fields of tagged data.
fn put_tl(out: &mut Vec<String>, v: &[TlData])
    ensures
        views(final(out)@) == views(old(out)@) + blobs_fields(tl_views(v@)),
{
    let ghost before = views(out@);
    let ghost all = tl_views(v@);
    let mut i: usize = 0;
    proof {
        assert(all.take(0) =~= Seq::<BlobView>::empty());
        assert(before + blobs_fields(all.take(0)) =~= before);
    }
    while i < v.len()
        invariant
            i <= v@.len(),
            all == tl_views(v@),
            views(out@) == before + blobs_fields(all.take(i as int)),
        decreases v@.len() - i,
    {
        put_blob(out, v[i].ty, v[i].contents.as_slice());
        proof {
            assert(all.take(i + 1).drop_last() =~= all.take(i as int));
            assert(all.take(i + 1).last() == all[i as int]);
            assert(views(out@) =~= before + blobs_fields(all.take(i + 1)));
        }
        i = i + 1;
    }
    proof {
        assert(all.take(all.len() as int) =~= all);
    }
}

/// Adds the fields of keys.
fn put_keys(out: &mut Vec<String>, v: &[DumpKeyData])
    ensures
        views(final(out)@) == views(old(out)@) + keys_fields(dump_key_views(v@)),
{
    let ghost before = views(out@);
    let ghost all = dump_key_views(v@);
    let mut i: usize = 0;
    proof {
        assert(all.take(0) =~= Seq::<DumpKeyView>::empty());
        assert(before + keys_fields(all.take(0)) =~= before);
    }
    while i < v.len()
        invariant
            i <= v@.len(),
            all == dump_key_views(v@),
            views(out@) == before + keys_fields(all.take(i as int)),
        decreases v@.len() - i,
    {
        put(out, signed_number(v[i].ver));
        put(out, number(v[i].kvno as u64));
        put_slots(out, v[i].slots.as_slice());
        proof {
            assert(all.take(i + 1).drop_last() =~= all.take(i as int));
            assert(all.take(i + 1).last() == v@[i as int]@);
            assert(v@[i as int]@.slots =~= slot_views(v@[i as int].slots@));
            assert(views(out@) =~= before + keys_fields(all.take(i + 1)));
        }
        i = i + 1;
    }
    proof {
        assert(all.take(all.len() as int) =~= all);
    }
}

/// Adds a number.
fn put_number(out: &mut Vec<String>, n: u64)
    ensures
        views(final(out)@) == views(old(out)@).push(decimal(n as nat)),
{
    put(out, number(n));
}

/// Adds the fields in front of the lists.
fn put_head(out: &mut Vec<String>, p: &DumpPrincipal)
    ensures
        views(final(out)@) == views(old(out)@) + head_fields(p@),
{
    let ghost before = views(out@);
    put_number(out, p.db_len as u64);
    put_number(out, p.name.as_str().as_bytes().len() as u64);
    put_number(out, p.tl_data.len() as u64);
    put_number(out, p.keys.len() as u64);
    put_number(out, p.e_data.len() as u64);
    put(out, p.name.clone());
    let ghost a = seq![
        decimal(p@.db_len as nat),
        decimal(octet_len(p@.name)),
        decimal(p@.tl_data.len()),
        decimal(p@.keys.len()),
        decimal(p@.e_data.len()),
        p@.name,
    ];
    proof {
        assert(views(out@) =~= before + a);
    }
    let ghost mid = views(out@);
    put_number(out, p.attributes as u64);
    put_number(out, p.max_life as u64);
    put_number(out, p.max_renewable_life as u64);
    put_number(out, p.expiration as u64);
    put_number(out, p.pw_expiration as u64);
    put_number(out, p.last_success as u64);
    put_number(out, p.last_failed as u64);
    put_number(out, p.fail_auth_count as u64);
    let ghost b = seq![
        decimal(p@.attributes as nat),
        decimal(p@.max_life as nat),
        decimal(p@.max_renewable_life as nat),
        decimal(p@.expiration as nat),
        decimal(p@.pw_expiration as nat),
        decimal(p@.last_success as nat),
        decimal(p@.last_failed as nat),
        decimal(p@.fail_auth_count as nat),
    ];
    proof {
        assert(views(out@) =~= mid + b);
        assert(head_fields(p@) =~= a + b) by {
            reveal(head_fields);
        }
        assert(views(out@) =~= before + (a + b));
    }
}

/// Adds the line of a record.
pub fn write_princ_record(out: &mut String, p: &DumpPrincipal)
    ensures
        final(out)@ == old(out)@ + record_line(p@).push('\n'),
{
    let mut f: Vec<String> = Vec::new();
    put(&mut f, "princ".to_owned());
    put_head(&mut f, p);
    put_tl(&mut f, p.tl_data.as_slice());
    put_keys(&mut f, p.keys.as_slice());
    put(&mut f, encode_hex(p.e_data.as_slice()));
    proof {
        assert(views(f@) =~= seq!["princ"@] + record_fields(p@));
    }
    let line = join_strings(f.as_slice(), '\t');
    out.append(line.as_str());
    out.push(';');
    out.push('\n');
    proof {
        assert(out@ =~= old(out)@ + record_line(p@).push('\n'));
    }
}

/// Records with one more in front.
proof fn lemma_records_push(v: Seq<PrincView>, p: PrincView)
    ensures
        records_text(v.push(p)) == records_text(v) + record_line(p).push('\n'),
    decreases v.len(),
{
    if v.len() == 0 {
        assert(v.push(p).drop_first() =~= Seq::<PrincView>::empty());
        assert(records_text(Seq::<PrincView>::empty()) == Seq::<char>::empty());
        assert(records_text(v.push(p)) =~= records_text(v) + record_line(p).push('\n'));
    } else {
        lemma_records_push(v.drop_first(), p);
        assert(v.push(p).drop_first() =~= v.drop_first().push(p));
        assert(records_text(v.push(p)) =~= records_text(v) + record_line(p).push('\n'));
    }
}

/// Writes a dump of records.
pub fn write_records(v: &[DumpPrincipal]) -> (r: String)
    ensures
        r@ == dump_text(princ_views(v@)),
{
    let mut out = String::new();
    out.append("kdb5_util load_dump version ");
    push_decimal(&mut out, KDB_DUMP_VERSION as u64);
    out.push('\n');
    let ghost all = princ_views(v@);
    let ghost front = header_line().push('\n');
    let mut i: usize = 0;
    proof {
        assert(all.take(0) =~= Seq::<PrincView>::empty());
        assert(out@ =~= front + records_text(all.take(0)));
    }
    while i < v.len()
        invariant
            i <= v@.len(),
            all == princ_views(v@),
            out@ == front + records_text(all.take(i as int)),
        decreases v@.len() - i,
    {
        write_princ_record(&mut out, &v[i]);
        proof {
            lemma_records_push(all.take(i as int), all[i as int]);
            assert(all.take(i + 1) =~= all.take(i as int).push(all[i as int]));
            assert(out@ =~= front + records_text(all.take(i + 1)));
        }
        i = i + 1;
    }
    proof {
        assert(all.take(all.len() as int) =~= all);
    }
    out
}

/// A record that a dump can hold: its lengths fit, its keys have as many slots
/// as they say, and its name holds no separator.
pub open spec fn recordable(p: PrincView) -> bool {
    &&& octet_len(p.name) <= u32::MAX
    &&& !p.name.contains('\t')
    &&& !p.name.contains('\n')
    &&& p.tl_data.len() <= u32::MAX
    &&& p.keys.len() <= u32::MAX
    &&& p.e_data.len() <= u32::MAX
    &&& short_blobs(p.tl_data)
    &&& forall|i: int| 0 <= i < p.keys.len() ==> recordable_key(#[trigger] p.keys[i])
}

/// Octets whose lengths fit.
pub open spec fn short_blobs(v: Seq<BlobView>) -> bool {
    forall|i: int| 0 <= i < v.len() ==> (#[trigger] v[i]).contents.len() <= u32::MAX
}

/// A key that a dump can hold.
pub open spec fn recordable_key(k: DumpKeyView) -> bool {
    (k.ver == 1 || k.ver == 2) && k.slots.len() == k.ver && short_blobs(k.slots)
}

/// Fields `part` stand in `f` from `i` on.
spec fn fields_at(f: Seq<Seq<char>>, i: int, part: Seq<Seq<char>>) -> bool {
    0 <= i && i + part.len() <= f.len() && f.subrange(i, i + part.len()) == part
}

/// What stands in front of, and behind, a place in fields.
proof fn lemma_fields_split(f: Seq<Seq<char>>, i: int, x: Seq<Seq<char>>, y: Seq<Seq<char>>)
    requires
        fields_at(f, i, x + y),
    ensures
        fields_at(f, i, x),
        fields_at(f, i + x.len(), y),
{
    let w = f.subrange(i, i + (x + y).len());
    assert(w.subrange(0, x.len() as int) =~= x);
    assert(f.subrange(i, i + x.len()) =~= w.subrange(0, x.len() as int));
    assert(w.subrange(x.len() as int, w.len() as int) =~= y);
    assert(f.subrange(i + x.len(), i + x.len() + y.len()) =~= w.subrange(
        x.len() as int,
        w.len() as int,
    ));
}

/// A number is read from the field that it was written to.
proof fn lemma_word_read(f: Seq<Seq<char>>, i: int, n: nat, line: nat)
    requires
        0 <= i < f.len(),
        f[i] == decimal(n),
        n <= u32::MAX,
    ensures
        word(f, i, line) == Ok::<u32, Seq<char>>(n as u32),
{
    law_decimal_round_trip(n);
}

/// Octets are read from the field that they were written to.
proof fn lemma_blob_read(f: Seq<Seq<char>>, i: int, b: Seq<u8>, line: nat)
    requires
        0 <= i < f.len(),
        f[i] == blob_text(b),
        b.len() <= u32::MAX,
    ensures
        blob(f, i, b.len() as u32, line) == Ok::<Seq<u8>, Seq<char>>(b),
{
    law_hex_round_trip(b);
    if b.len() == 0 {
        assert(b =~= Seq::<u8>::empty());
    }
}

/// A type with octets is read from its fields.
proof fn lemma_typed_read(f: Seq<Seq<char>>, i: int, b: BlobView, line: nat)
    requires
        fields_at(f, i, blob_fields(b)),
        b.contents.len() <= u32::MAX,
    ensures
        typed_blob(f, i, line) == Ok::<BlobView, Seq<char>>(b),
{
    let w = f.subrange(i, i + 3);
    assert(f[i] == w[0]);
    assert(f[i + 1] == w[1]);
    assert(f[i + 2] == w[2]);
    law_signed_round_trip(b.ty as int);
    lemma_word_read(f, i + 1, b.contents.len(), line);
    lemma_blob_read(f, i + 2, b.contents, line);
}

/// How many fields types with octets take.
proof fn lemma_blobs_len(v: Seq<BlobView>)
    ensures
        blobs_fields(v).len() == 3 * v.len(),
    decreases v.len(),
{
    if v.len() > 0 {
        lemma_blobs_len(v.drop_last());
    }
}

/// Types with octets are read from their fields.
proof fn lemma_blobs_read(f: Seq<Seq<char>>, i: int, v: Seq<BlobView>, line: nat)
    requires
        fields_at(f, i, blobs_fields(v)),
        short_blobs(v),
    ensures
        blobs(f, i, v.len(), line) == Ok::<Seq<BlobView>, Seq<char>>(v),
    decreases v.len(),
{
    if v.len() == 0 {
        assert(v =~= Seq::<BlobView>::empty());
    } else {
        let front = v.drop_last();
        lemma_blobs_len(front);
        lemma_fields_split(f, i, blobs_fields(front), blob_fields(v.last()));
        assert forall|k: int| 0 <= k < front.len() implies (#[trigger] front[k]).contents.len()
            <= u32::MAX by {
            assert(front[k] == v[k]);
        }
        lemma_blobs_read(f, i, front, line);
        assert(v[v.len() - 1].contents.len() <= u32::MAX);
        lemma_typed_read(f, i + 3 * front.len(), v.last(), line);
        assert(front.push(v.last()) =~= v);
    }
}

/// A key is read from its fields.
proof fn lemma_key_read(f: Seq<Seq<char>>, i: int, k: DumpKeyView, line: nat)
    requires
        fields_at(f, i, key_fields(k)),
        recordable_key(k),
    ensures
        key(f, i, line) == Ok::<(DumpKeyView, int), Seq<char>>((k, i + key_fields(k).len())),
{
    let two = seq![decimal_int(k.ver as int), decimal(k.kvno as nat)];
    lemma_fields_split(f, i, two, blobs_fields(k.slots));
    let w = f.subrange(i, i + 2);
    assert(f[i] == w[0]);
    assert(f[i + 1] == w[1]);
    law_signed_round_trip(k.ver as int);
    lemma_word_read(f, i + 1, k.kvno as nat, line);
    lemma_blobs_read(f, i + 2, k.slots, line);
    lemma_blobs_len(k.slots);
}

/// Keys are read from their fields.
proof fn lemma_keys_read(f: Seq<Seq<char>>, i: int, v: Seq<DumpKeyView>, line: nat)
    requires
        fields_at(f, i, keys_fields(v)),
        forall|k: int| 0 <= k < v.len() ==> recordable_key(#[trigger] v[k]),
    ensures
        keys(f, i, v.len(), line) == Ok::<(Seq<DumpKeyView>, int), Seq<char>>(
            (v, i + keys_fields(v).len()),
        ),
    decreases v.len(),
{
    if v.len() == 0 {
        assert(v =~= Seq::<DumpKeyView>::empty());
    } else {
        let front = v.drop_last();
        lemma_fields_split(f, i, keys_fields(front), key_fields(v.last()));
        assert forall|k: int| 0 <= k < front.len() implies recordable_key(#[trigger] front[k]) by {
            assert(front[k] == v[k]);
        }
        lemma_keys_read(f, i, front, line);
        assert(recordable_key(v[v.len() - 1]));
        lemma_key_read(f, i + keys_fields(front).len(), v.last(), line);
        assert(front.push(v.last()) =~= v);
    }
}

/// Numbers are read from the fields that they were written to.
proof fn lemma_words_read(f: Seq<Seq<char>>, i: int, v: Seq<u32>, line: nat)
    requires
        0 <= i,
        i + v.len() <= f.len(),
        forall|k: int| 0 <= k < v.len() ==> f[i + k] == decimal((#[trigger] v[k]) as nat),
    ensures
        words(f, i, v.len(), line) == Ok::<Seq<u32>, Seq<char>>(v),
    decreases v.len(),
{
    if v.len() == 0 {
        assert(v =~= Seq::<u32>::empty());
    } else {
        let front = v.drop_last();
        assert forall|k: int| 0 <= k < front.len() implies f[i + k] == decimal(
            (#[trigger] front[k]) as nat,
        ) by {
            assert(front[k] == v[k]);
        }
        lemma_words_read(f, i, front, line);
        assert(f[i + (v.len() - 1)] == decimal(v[v.len() - 1] as nat));
        lemma_word_read(f, i + v.len() - 1, v.last() as nat, line);
        assert(front.push(v.last()) =~= v);
    }
}

/// The fields in front of the lists are read.
proof fn lemma_head_read(f: Seq<Seq<char>>, p: PrincView, line: nat)
    requires
        fields_at(f, 0, head_fields(p)),
        recordable(p),
    ensures
        head_fields(p).len() == 14,
        head(f, line) == Ok::<(Seq<u32>, Seq<char>, Seq<u32>), Seq<char>>(
            (
                seq![
                    p.db_len,
                    octet_len(p.name) as u32,
                    p.tl_data.len() as u32,
                    p.keys.len() as u32,
                    p.e_data.len() as u32,
                ],
                p.name,
                seq![
                    p.attributes,
                    p.max_life,
                    p.max_renewable_life,
                    p.expiration,
                    p.pw_expiration,
                    p.last_success,
                    p.last_failed,
                    p.fail_auth_count,
                ],
            ),
        ),
{
    reveal(head_fields);
    reveal(head);
    let h = head_fields(p);
    assert(h.len() == 14);
    assert forall|k: int| 0 <= k < 14 implies f[k] == #[trigger] h[k] by {
        assert(f.subrange(0, 14)[k] == f[k]);
    }
    let a = seq![
        p.db_len,
        octet_len(p.name) as u32,
        p.tl_data.len() as u32,
        p.keys.len() as u32,
        p.e_data.len() as u32,
    ];
    let b = seq![
        p.attributes,
        p.max_life,
        p.max_renewable_life,
        p.expiration,
        p.pw_expiration,
        p.last_success,
        p.last_failed,
        p.fail_auth_count,
    ];
    assert forall|k: int| 0 <= k < 5 implies f[0 + k] == decimal((#[trigger] a[k]) as nat) by {
        assert(f[k] == h[k]);
    }
    assert forall|k: int| 0 <= k < 8 implies f[6 + k] == decimal((#[trigger] b[k]) as nat) by {
        assert(f[6 + k] == h[6 + k]);
    }
    lemma_words_read(f, 0, a, line);
    lemma_words_read(f, 6, b, line);
    assert(f[5] == h[5]);
}

/// The lists are read.
proof fn lemma_tail_read(f: Seq<Seq<char>>, p: PrincView, line: nat)
    requires
        recordable(p),
        fields_at(f, 14, blobs_fields(p.tl_data)),
        fields_at(f, (14 + 3 * p.tl_data.len()) as int, keys_fields(p.keys)),
        f.len() == 15 + 3 * p.tl_data.len() + keys_fields(p.keys).len(),
        f.last() == blob_text(p.e_data),
    ensures
        tail(f, p.tl_data.len(), p.keys.len(), p.e_data.len() as u32, line) == Ok::<
            (Seq<BlobView>, Seq<DumpKeyView>, Seq<u8>),
            Seq<char>,
        >((p.tl_data, p.keys, p.e_data)),
{
    reveal(tail);
    lemma_blobs_read(f, 14, p.tl_data, line);
    lemma_keys_read(f, (14 + 3 * p.tl_data.len()) as int, p.keys, line);
    lemma_blob_read(f, f.len() - 1, p.e_data, line);
}

/// The record that the fields in front and the lists make.
proof fn lemma_record_made(f: Seq<Seq<char>>, p: PrincView, line: nat)
    requires
        recordable(p),
        fields_at(f, 0, head_fields(p)),
        tail(f, p.tl_data.len(), p.keys.len(), p.e_data.len() as u32, line) == Ok::<
            (Seq<BlobView>, Seq<DumpKeyView>, Seq<u8>),
            Seq<char>,
        >((p.tl_data, p.keys, p.e_data)),
    ensures
        record(f, line) == Ok::<PrincView, Seq<char>>(p),
{
    reveal(record);
    lemma_head_read(f, p, line);
}

/// The fields of a record say the record.
pub proof fn law_fields_round_trip(p: PrincView, line: nat)
    requires
        recordable(p),
    ensures
        record(record_fields(p), line) == Ok::<PrincView, Seq<char>>(p),
{
    let f = record_fields(p);
    let h = head_fields(p);
    let t = blobs_fields(p.tl_data);
    let k = keys_fields(p.keys);
    let e = seq![blob_text(p.e_data)];
    assert(f.subrange(0, f.len() as int) =~= f);
    lemma_head_plain(p);
    lemma_blobs_len(p.tl_data);
    lemma_fields_split(f, 0, h + t + k, e);
    lemma_fields_split(f, 0, h + t, k);
    lemma_fields_split(f, 0, h, t);
    lemma_tail_read(f, p, line);
    lemma_record_made(f, p, line);
}

/// A digit is no separator.
proof fn lemma_digits_plain(s: Seq<char>)
    requires
        forall|k: int| 0 <= k < s.len() ==> digit_value(#[trigger] s[k]) is Some,
    ensures
        !s.contains('\t'),
        !s.contains('\n'),
{
    assert(digit_value('\t') is None);
    assert(digit_value('\n') is None);
}

/// A number in decimal holds digits alone.
proof fn lemma_decimal_plain(n: nat)
    ensures
        forall|k: int| 0 <= k < decimal(n).len() ==> digit_value(#[trigger] decimal(n)[k]) is Some,
        !decimal(n).contains('\t'),
        !decimal(n).contains('\n'),
        decimal(n).len() > 0,
    decreases n,
{
    if n >= 10 {
        lemma_decimal_plain(n / 10);
        assert forall|k: int| 0 <= k < decimal(n).len() implies digit_value(
            #[trigger] decimal(n)[k],
        ) is Some by {
            if k < decimal(n / 10).len() {
                assert(decimal(n)[k] == decimal(n / 10)[k]);
            }
        }
    }
    lemma_digits_plain(decimal(n));
}

/// A signed number holds no separator.
proof fn lemma_signed_plain(n: int)
    ensures
        !decimal_int(n).contains('\t'),
        !decimal_int(n).contains('\n'),
{
    let m: nat = if n < 0 {
        (-n) as nat
    } else {
        n as nat
    };
    lemma_decimal_plain(m);
    if n < 0 {
        assert forall|k: int| 0 <= k < decimal_int(n).len() implies decimal_int(n)[k] != '\t'
            && decimal_int(n)[k] != '\n' by {
            if k > 0 {
                assert(decimal_int(n)[k] == decimal(m)[k - 1]);
                assert(digit_value(decimal(m)[k - 1]) is Some);
            }
        }
    }
}

/// Octets as a field hold no separator, and the field is not empty.
proof fn lemma_blob_plain(b: Seq<u8>)
    ensures
        !blob_text(b).contains('\t'),
        !blob_text(b).contains('\n'),
        blob_text(b).len() > 0,
    decreases b.len(),
{
    reveal_strlit("-1");
    if b.len() > 0 {
        lemma_hex_digits(b);
        law_hex_round_trip(b);
        lemma_digits_plain(hex(b));
    }
}

/// Octets in hexadecimal are digits.
proof fn lemma_hex_digits(b: Seq<u8>)
    ensures
        forall|k: int| 0 <= k < hex(b).len() ==> digit_value(#[trigger] hex(b)[k]) is Some,
    decreases b.len(),
{
    if b.len() > 0 {
        lemma_hex_digits(b.drop_last());
        let front = hex(b.drop_last());
        assert forall|k: int| 0 <= k < hex(b).len() implies digit_value(
            #[trigger] hex(b)[k],
        ) is Some by {
            if k < front.len() {
                assert(hex(b)[k] == front[k]);
            }
        }
    }
}

/// Fields without separators.
spec fn plain(f: Seq<Seq<char>>) -> bool {
    forall|i: int|
        0 <= i < f.len() ==> !(#[trigger] f[i]).contains('\t') && !f[i].contains('\n')
}

/// Types with octets have plain fields.
proof fn lemma_blobs_plain(v: Seq<BlobView>)
    ensures
        plain(blobs_fields(v)),
    decreases v.len(),
{
    if v.len() > 0 {
        lemma_blobs_plain(v.drop_last());
        let b = v.last();
        lemma_signed_plain(b.ty as int);
        lemma_decimal_plain(b.contents.len());
        lemma_blob_plain(b.contents);
        let front = blobs_fields(v.drop_last());
        let f = blobs_fields(v);
        assert forall|i: int| 0 <= i < f.len() implies !(#[trigger] f[i]).contains('\t')
            && !f[i].contains('\n') by {
            if i < front.len() {
                assert(f[i] == front[i]);
            } else {
                assert(f[i] == blob_fields(b)[i - front.len()]);
            }
        }
    }
}

/// Keys have plain fields.
proof fn lemma_keys_plain(v: Seq<DumpKeyView>)
    ensures
        plain(keys_fields(v)),
    decreases v.len(),
{
    if v.len() > 0 {
        lemma_keys_plain(v.drop_last());
        let k = v.last();
        lemma_signed_plain(k.ver as int);
        lemma_decimal_plain(k.kvno as nat);
        lemma_blobs_plain(k.slots);
        let front = keys_fields(v.drop_last());
        let f = keys_fields(v);
        assert forall|i: int| 0 <= i < f.len() implies !(#[trigger] f[i]).contains('\t')
            && !f[i].contains('\n') by {
            if i < front.len() {
                assert(f[i] == front[i]);
            } else if i < front.len() + 2 {
                assert(f[i] == key_fields(k)[i - front.len()]);
            } else {
                assert(f[i] == blobs_fields(k.slots)[i - front.len() - 2]);
            }
        }
    }
}

/// The fields in front of the lists are plain.
proof fn lemma_head_plain(p: PrincView)
    requires
        recordable(p),
    ensures
        plain(head_fields(p)),
        head_fields(p).len() == 14,
{
    reveal(head_fields);
    lemma_decimal_plain(p.db_len as nat);
    lemma_decimal_plain(octet_len(p.name));
    lemma_decimal_plain(p.tl_data.len());
    lemma_decimal_plain(p.keys.len());
    lemma_decimal_plain(p.e_data.len());
    lemma_decimal_plain(p.attributes as nat);
    lemma_decimal_plain(p.max_life as nat);
    lemma_decimal_plain(p.max_renewable_life as nat);
    lemma_decimal_plain(p.expiration as nat);
    lemma_decimal_plain(p.pw_expiration as nat);
    lemma_decimal_plain(p.last_success as nat);
    lemma_decimal_plain(p.last_failed as nat);
    lemma_decimal_plain(p.fail_auth_count as nat);
}

/// A record has plain fields.
proof fn lemma_record_plain(p: PrincView)
    requires
        recordable(p),
    ensures
        plain(record_fields(p)),
        plain(seq!["princ"@] + record_fields(p)),
        record_fields(p).len() > 14,
        record_fields(p).last() == blob_text(p.e_data),
        blob_text(p.e_data).len() > 0,
{
    lemma_head_plain(p);
    lemma_blobs_plain(p.tl_data);
    lemma_keys_plain(p.keys);
    lemma_blob_plain(p.e_data);
    let h = head_fields(p);
    let t = blobs_fields(p.tl_data);
    let k = keys_fields(p.keys);
    let f = record_fields(p);
    assert forall|i: int| 0 <= i < f.len() implies !(#[trigger] f[i]).contains('\t')
        && !f[i].contains('\n') by {
        if i < h.len() {
            assert(f[i] == h[i]);
        } else if i < h.len() + t.len() {
            assert(f[i] == t[i - h.len()]);
        } else if i < h.len() + t.len() + k.len() {
            assert(f[i] == k[i - h.len() - t.len()]);
        } else {
            assert(f[i] == blob_text(p.e_data));
        }
    }
    reveal_strlit("princ");
    let g = seq!["princ"@] + f;
    assert forall|i: int| 0 <= i < g.len() implies !(#[trigger] g[i]).contains('\t')
        && !g[i].contains('\n') by {
        if i > 0 {
            assert(g[i] == f[i - 1]);
        }
    }
}

/// Fields with one more in front, joined.
proof fn lemma_join_front(a: Seq<char>, f: Seq<Seq<char>>, c: char)
    requires
        f.len() > 0,
    ensures
        join(seq![a] + f, c) == a.push(c) + join(f, c),
    decreases f.len(),
{
    let g = seq![a] + f;
    if f.len() == 1 {
        assert(g.drop_last() =~= seq![a]);
        assert(join(seq![a], c) == a);
    } else {
        lemma_join_front(a, f.drop_last(), c);
        assert(g.drop_last() =~= seq![a] + f.drop_last());
        assert(join(g, c) =~= a.push(c) + join(f, c));
    }
}

/// The line of a record is read as the record.
proof fn lemma_line_read(p: PrincView, line: nat)
    requires
        recordable(p),
    ensures
        line_says(record_line(p), line) == Ok::<LineView, Seq<char>>(LineView::Princ(p)),
{
    reveal(line_says);
    reveal_strlit("policy\t");
    reveal_strlit("princ\t");
    reveal_strlit("princ");
    let f = record_fields(p);
    let s = record_line(p);
    lemma_record_plain(p);
    lemma_join_front("princ"@, f, '\t');
    assert("princ"@.push('\t') =~= "princ\t"@);
    assert(s =~= "princ\t"@ + join(f, '\t').push(';'));
    assert("princ\t"@.is_prefix_of(s)) by {
        assert(s.subrange(0, 6) =~= "princ\t"@);
    }
    assert(!"policy\t"@.is_prefix_of(s)) by {
        assert(s[1] == 'r');
        if "policy\t"@.is_prefix_of(s) {
            assert(s.subrange(0, 7)[1] == s[1]);
        }
    }
    let rest = s.skip(6);
    assert(rest =~= join(f, '\t').push(';'));
    lemma_last_field(f);
    law_fields_round_trip(p, line);
}

/// The fields of joined fields with a semicolon behind them.
proof fn lemma_last_field(f: Seq<Seq<char>>)
    requires
        f.len() > 1,
        plain(f),
        f.last().len() > 0,
    ensures
        line_fields(join(f, '\t').push(';')) == f,
{
    let front = f.drop_last();
    let last = f.last();
    assert forall|i: int| 0 <= i < front.len() implies !(#[trigger] front[i]).contains('\t') by {
        assert(front[i] == f[i]);
    }
    law_split_of_join(front, '\t');
    let ending = last.push(';');
    assert(!ending.contains('\t')) by {
        assert(!f[f.len() - 1].contains('\t'));
        assert forall|k: int| 0 <= k < ending.len() implies ending[k] != '\t' by {
            if k < last.len() {
                assert(ending[k] == last[k]);
            }
        }
    }
    lemma_split_end(join(front, '\t'), ending, '\t');
    assert(join(f, '\t').push(';') =~= join(front, '\t').push('\t') + ending);
    let all = split(join(f, '\t').push(';'), '\t');
    assert(all == front.push(ending));
    assert(all.drop_last() =~= front);
    assert(ending.drop_last() =~= last);
    assert(front.push(last) =~= f);
}

/// Joined plain fields hold no line end.
proof fn lemma_join_plain(f: Seq<Seq<char>>)
    requires
        plain(f),
    ensures
        !join(f, '\t').contains('\n'),
    decreases f.len(),
{
    if f.len() > 1 {
        let front = f.drop_last();
        assert forall|i: int| 0 <= i < front.len() implies !(#[trigger] front[i]).contains('\t')
            && !front[i].contains('\n') by {
            assert(front[i] == f[i]);
        }
        lemma_join_plain(front);
        let a = join(front, '\t');
        let s = join(f, '\t');
        assert(!f[f.len() - 1].contains('\n'));
        assert forall|k: int| 0 <= k < s.len() implies s[k] != '\n' by {
            if k < a.len() {
                assert(s[k] == a[k]);
            } else if k > a.len() {
                assert(s[k] == f.last()[k - a.len() - 1]);
            }
        }
    } else if f.len() == 1 {
        assert(!f[0].contains('\n'));
    }
}

/// The lines of records, and what they say.
proof fn lemma_records_read(v: Seq<PrincView>, line: nat)
    requires
        forall|i: int| 0 <= i < v.len() ==> recordable(#[trigger] v[i]),
    ensures
        records(lines(records_text(v)), line) == Ok::<(Seq<PrincView>, Seq<Seq<char>>), Seq<char>>(
            (v, Seq::empty()),
        ),
    decreases v.len(),
{
    if v.len() == 0 {
        assert(lines(Seq::<char>::empty()) == Seq::<Seq<char>>::empty());
        assert(v =~= Seq::<PrincView>::empty());
    } else {
        let rest = v.drop_first();
        assert(recordable(v[0]));
        assert forall|i: int| 0 <= i < rest.len() implies recordable(#[trigger] rest[i]) by {
            assert(rest[i] == v[i + 1]);
        }
        lemma_records_read(rest, line + 1);
        let s = record_line(v[0]);
        lemma_record_plain(v[0]);
        let f = seq!["princ"@] + record_fields(v[0]);
        lemma_join_plain(f);
        assert(!s.contains('\n')) by {
            assert forall|k: int| 0 <= k < s.len() implies s[k] != '\n' by {
                if k < s.len() - 1 {
                    assert(s[k] == join(f, '\t')[k]);
                }
            }
        }
        lemma_lines_front(s, records_text(rest));
        lemma_line_read(v[0], line);
        let ls = lines(records_text(v));
        assert(ls == seq![s] + lines(records_text(rest)));
        assert(ls.drop_first() =~= lines(records_text(rest)));
        assert(seq![v[0]] + rest =~= v);
    }
}

/// The header that is written is read.
proof fn lemma_header_read()
    ensures
        header(header_line()) == Ok::<u32, Seq<char>>(KDB_DUMP_VERSION),
        !header_line().contains('\n'),
        header_line().len() > 0,
        header_line().last() != '\r',
{
    reveal_strlit("kdb5_util load_dump version ");
    let prefix = "kdb5_util load_dump version "@;
    let d = decimal(KDB_DUMP_VERSION as nat);
    assert(d =~= seq!['7']);
    let s = header_line();
    assert(s.skip(prefix.len() as int) =~= d);
    assert(prefix.is_prefix_of(s)) by {
        assert(s.subrange(0, prefix.len() as int) =~= prefix);
    }
    assert(trim_end(d) == d);
    assert(trim(d) == d);
    law_decimal_round_trip(KDB_DUMP_VERSION as nat);
}

/// Reading a dump that was written gives the records back.
pub proof fn law_dump_round_trip(v: Seq<PrincView>)
    requires
        v.len() > 0,
        forall|i: int| 0 <= i < v.len() ==> recordable(#[trigger] v[i]),
    ensures
        spec_parse_dump(dump_text(v)) == Ok::<FileView, Seq<char>>(
            (FileView { version: KDB_DUMP_VERSION, princs: v, policies: Seq::empty() }),
        ),
{
    lemma_header_read();
    lemma_lines_front(header_line(), records_text(v));
    lemma_records_read(v, 2);
    let ls = lines(dump_text(v));
    assert(ls.drop_first() =~= lines(records_text(v)));
}

} // verus!
