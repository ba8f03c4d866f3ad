//! The log of changes beside a database.

use crate::num::{
    decimal, law_decimal_round_trip, parse_unsigned, parsed_nat, push_decimal,
};
use crate::persist::PersistError;
use crate::text::{
    char_lists, has_prefix, lemma_lines_front, lemma_position, lines, lines_of, position,
    range_string,
};
use vstd::prelude::*;
use vstd::slice::slice_subrange;
use vstd::string::*;

verus! {

/// A change.
#[derive(Clone, Debug, PartialEq, Eq)]
pub struct UlogEntry {
    /// Number.
    pub sno: u32,
    /// Time.
    pub time: u32,
    /// The principal was deleted.
    pub deleted: bool,
    /// The principal.
    pub name: String,
}

/// What a change says.
#[verifier::ext_equal]
pub struct UlogView {
    /// Number.
    pub sno: u32,
    /// Time.
    pub time: u32,
    /// The principal was deleted.
    pub deleted: bool,
    /// The principal.
    pub name: Seq<char>,
}

impl View for UlogEntry {
    type V = UlogView;

    open spec fn view(&self) -> UlogView {
        UlogView { sno: self.sno, time: self.time, deleted: self.deleted, name: self.name@ }
    }
}

/// What changes say.
pub open spec fn ulog_views(v: Seq<UlogEntry>) -> Seq<UlogView> {
    v.map_values(|e: UlogEntry| e@)
}

/// The line of a change.
pub open spec fn entry_line(e: UlogView) -> Seq<char> {
    decimal(e.sno as nat).push('\t') + decimal(e.time as nat).push('\t') + (if e.deleted {
        seq!['1']
    } else {
        seq!['0']
    }).push('\t') + e.name
}

/// The lines of changes.
pub open spec fn entries_text(v: Seq<UlogView>) -> Seq<char>
    decreases v.len(),
{
    if v.len() == 0 {
        Seq::empty()
    } else {
        entry_line(v[0]).push('\n') + entries_text(v.drop_first())
    }
}

/// The text of a log.
pub open spec fn ulog_text(v: Seq<UlogView>) -> Seq<char> {
    "ulog 1"@.push('\n') + entries_text(v)
}

/// Changes with one more at the end.
proof fn lemma_entries_push(v: Seq<UlogView>, e: UlogView)
    ensures
        entries_text(v.push(e)) == entries_text(v) + entry_line(e).push('\n'),
    decreases v.len(),
{
    if v.len() == 0 {
        assert(v.push(e).drop_first() =~= Seq::<UlogView>::empty());
        assert(entries_text(Seq::<UlogView>::empty()) == Seq::<char>::empty());
        assert(entries_text(v.push(e)) =~= entries_text(v) + entry_line(e).push('\n'));
    } else {
        lemma_entries_push(v.drop_first(), e);
        assert(v.push(e).drop_first() =~= v.drop_first().push(e));
        assert(entries_text(v.push(e)) =~= entries_text(v) + entry_line(e).push('\n'));
    }
}

/// Writes a log.
pub fn save_ulog(v: &[UlogEntry]) -> (r: String)
    ensures
        r@ == ulog_text(ulog_views(v@)),
{
    let mut out = String::new();
    out.append("ulog 1");
    out.push('\n');
    let ghost front = "ulog 1"@.push('\n');
    let ghost all = ulog_views(v@);
    let mut i: usize = 0;
    proof {
        assert(all.take(0) =~= Seq::<UlogView>::empty());
        assert(out@ =~= front + entries_text(all.take(0)));
    }
    while i < v.len()
        invariant
            i <= v@.len(),
            all == ulog_views(v@),
            out@ == front + entries_text(all.take(i as int)),
        decreases v@.len() - i,
    {
        let ghost before = out@;
        let e: &UlogEntry = &v[i];
        push_decimal(&mut out, e.sno as u64);
        out.push('\t');
        push_decimal(&mut out, e.time as u64);
        out.push('\t');
        if e.deleted {
            out.push('1');
        } else {
            out.push('0');
        }
        out.push('\t');
        out.append(e.name.as_str());
        out.push('\n');
        proof {
            assert(out@ =~= before + entry_line(e@).push('\n'));
            lemma_entries_push(all.take(i as int), all[i as int]);
            assert(all.take(i + 1) =~= all.take(i as int).push(all[i as int]));
            assert(out@ =~= front + entries_text(all.take(i + 1)));
        }
        i = i + 1;
    }
    proof {
        assert(all.take(all.len() as int) =~= all);
    }
    out
}

/// The number of 32 bits that a text stands for.
pub open spec fn number(s: Seq<char>) -> Option<u32> {
    match parsed_nat(s) {
        Some(n) => if n <= u32::MAX {
            Some(n as u32)
        } else {
            None
        },
        None => None,
    }
}

/// The part of a line in front of the first tab from `i` on, or all of it.
pub open spec fn part_end(s: Seq<char>, i: int) -> int {
    i + position(s.skip(i), '\t')
}

/// The change that a line says: a number, a time, whether it is a deletion,
/// and the principal, which may hold tabs.
pub open spec fn entry_of(s: Seq<char>) -> Result<UlogView, Seq<char>> {
    let a = part_end(s, 0);
    match number(s.take(a)) {
        None => Err("ulog sno"@),
        Some(sno) => if a >= s.len() {
            Err("ulog time"@)
        } else {
            let b = part_end(s, a + 1);
            match number(s.subrange(a + 1, b)) {
                None => Err("ulog time"@),
                Some(time) => if b >= s.len() {
                    Err("ulog name"@)
                } else {
                    let c = part_end(s, b + 1);
                    if c >= s.len() {
                        Err("ulog name"@)
                    } else {
                        Ok(
                            UlogView {
                                sno,
                                time,
                                deleted: s.subrange(b + 1, c) == seq!['1'],
                                name: s.skip(c + 1),
                            },
                        )
                    }
                },
            }
        },
    }
}

/// The changes that lines say; empty lines say nothing, and the first line
/// that is wrong decides.
pub open spec fn entries_of(ls: Seq<Seq<char>>) -> Result<Seq<UlogView>, Seq<char>>
    decreases ls.len(),
{
    if ls.len() == 0 {
        Ok(Seq::empty())
    } else {
        match entries_of(ls.drop_last()) {
            Err(e) => Err(e),
            Ok(v) => if ls.last().len() == 0 {
                Ok(v)
            } else {
                match entry_of(ls.last()) {
                    Err(e) => Err(e),
                    Ok(x) => Ok(v.push(x)),
                }
            },
        }
    }
}

/// The log that a text says; an empty text says no changes.
pub open spec fn spec_load_ulog(text: Seq<char>) -> Result<Seq<UlogView>, Seq<char>> {
    let ls = lines(text);
    if ls.len() == 0 {
        Ok(Seq::empty())
    } else if !"ulog "@.is_prefix_of(ls[0]) {
        Err("ulog header"@)
    } else {
        entries_of(ls.drop_first())
    }
}

/// The place of the first tab from `i` on.
fn find_tab(cs: &[char], i: usize) -> (r: usize)
    requires
        i <= cs@.len(),
    ensures
        r == part_end(cs@, i as int),
        i <= r <= cs@.len(),
{
    let ghost s = cs@.skip(i as int);
    let mut j: usize = i;
    while j < cs.len() && cs[j] != '\t'
        invariant
            i <= j <= cs@.len(),
            forall|k: int| i <= k < j ==> cs@[k] != '\t',
        decreases cs@.len() - j,
    {
        j = j + 1;
    }
    proof {
        lemma_position(s, '\t');
        let p = position(s, '\t');
        if p < j - i {
            assert(s[p] == cs@[i + p]);
        }
        if j < cs@.len() && p > j - i {
            assert(s[j - i] == cs@[j as int]);
        }
    }
    j
}

/// Reads the change that a line says.
fn parse_entry(cs: &[char]) -> (r: Result<UlogEntry, PersistError>)
    ensures
        match r {
            Ok(e) => entry_of(cs@) == Ok::<UlogView, Seq<char>>(e@),
            Err(e) => e matches PersistError::Format(m) && entry_of(cs@) == Err::<
                UlogView,
                Seq<char>,
            >(m@),
        },
{
    let a: usize = find_tab(cs, 0);
    proof {
        assert(cs@.subrange(0, a as int) =~= cs@.take(a as int));
    }
    let sno: u32 = match parse_unsigned(slice_subrange(cs, 0, a), 0xffff_ffff) {
        Some(n) => n as u32,
        None => {
            return Err(PersistError::Format("ulog sno".to_owned()));
        },
    };
    if a >= cs.len() {
        return Err(PersistError::Format("ulog time".to_owned()));
    }
    let b: usize = find_tab(cs, a + 1);
    let time: u32 = match parse_unsigned(slice_subrange(cs, a + 1, b), 0xffff_ffff) {
        Some(n) => n as u32,
        None => {
            return Err(PersistError::Format("ulog time".to_owned()));
        },
    };
    if b >= cs.len() {
        return Err(PersistError::Format("ulog name".to_owned()));
    }
    let c: usize = find_tab(cs, b + 1);
    if c >= cs.len() {
        return Err(PersistError::Format("ulog name".to_owned()));
    }
    let deleted: bool = c == b + 2 && cs[b + 1] == '1';
    let name = range_string(cs, c + 1, cs.len());
    proof {
        let d = cs@.subrange(b + 1, c as int);
        if deleted {
            assert(d =~= seq!['1']);
        } else if d =~= seq!['1'] {
            assert(d.len() == 1);
            assert(c == b + 2);
            assert(d[0] == '1');
            assert(d[0] == cs@[b + 1]);
        }
        assert(name@ =~= cs@.skip(c + 1));
    }
    Ok(UlogEntry { sno, time, deleted, name })
}

/// Lines of which one is wrong are wrong with more behind them too.
proof fn lemma_entries_fail(ls: Seq<Seq<char>>, k: int)
    requires
        0 <= k <= ls.len(),
        entries_of(ls.take(k)) is Err,
    ensures
        entries_of(ls) == entries_of(ls.take(k)),
    decreases ls.len(),
{
    if k == ls.len() {
        assert(ls.take(k) =~= ls);
    } else {
        assert(ls.drop_last().take(k) =~= ls.take(k));
        lemma_entries_fail(ls.drop_last(), k);
    }
}

/// Reads a log.
pub fn load_ulog(text: &str) -> (r: Result<Vec<UlogEntry>, PersistError>)
    ensures
        match r {
            Ok(v) => spec_load_ulog(text@) == Ok::<Seq<UlogView>, Seq<char>>(ulog_views(v@)),
            Err(e) => e matches PersistError::Format(m) && spec_load_ulog(text@) == Err::<
                Seq<UlogView>,
                Seq<char>,
            >(m@),
        },
{
    let ls = lines_of(text);
    let ghost all = lines(text@);
    let mut out: Vec<UlogEntry> = Vec::new();
    proof {
        assert(all.len() == ls@.len());
        assert forall|k: int| 0 <= k < ls@.len() implies all[k] == (#[trigger] ls@[k])@ by {
            assert(char_lists(ls@)[k] == ls@[k]@);
        }
        assert(ulog_views(out@) =~= Seq::<UlogView>::empty());
    }
    if ls.len() == 0 {
        return Ok(out);
    }
    if !has_prefix(ls[0].as_slice(), "ulog ") {
        return Err(PersistError::Format("ulog header".to_owned()));
    }
    let ghost body = all.drop_first();
    let mut i: usize = 1;
    proof {
        assert(body.take(0) =~= Seq::<Seq<char>>::empty());
    }
    while i < ls.len()
        invariant
            1 <= i <= ls@.len(),
            all == lines(text@),
            all.len() == ls@.len(),
            "ulog "@.is_prefix_of(all[0]),
            body == all.drop_first(),
            forall|k: int| 0 <= k < ls@.len() ==> all[k] == (#[trigger] ls@[k])@,
            entries_of(body.take(i - 1)) == Ok::<Seq<UlogView>, Seq<char>>(ulog_views(out@)),
        decreases ls@.len() - i,
    {
        let ghost before = out@;
        proof {
            assert(body.take(i as int).drop_last() =~= body.take(i - 1));
            assert(body.take(i as int).last() == ls@[i as int]@);
        }
        if ls[i].len() > 0 {
            match parse_entry(ls[i].as_slice()) {
                Ok(e) => {
                    let ghost view = e@;
                    out.push(e);
                    proof {
                        assert(ulog_views(out@) =~= ulog_views(before).push(view));
                    }
                },
                Err(e) => {
                    proof {
                        lemma_entries_fail(body, i as int);
                    }
                    return Err(e);
                },
            }
        }
        i = i + 1;
    }
    proof {
        assert(body.take(i - 1) =~= body);
    }
    Ok(out)
}

/// A number in decimal holds neither tab nor line end.
proof fn lemma_plain(n: nat)
    ensures
        !decimal(n).contains('\t'),
        !decimal(n).contains('\n'),
        decimal(n).len() > 0,
    decreases n,
{
    if n >= 10 {
        lemma_plain(n / 10);
        let d = decimal(n);
        let front = decimal(n / 10);
        assert forall|k: int| 0 <= k < d.len() implies d[k] != '\t' && d[k] != '\n' by {
            if k < front.len() {
                assert(d[k] == front[k]);
            }
        }
    }
}

/// The first tab behind a part that holds none.
proof fn lemma_tab(s: Seq<char>, i: int, part: Seq<char>)
    requires
        0 <= i,
        i + part.len() < s.len(),
        s.subrange(i, i + part.len()) == part,
        !part.contains('\t'),
        s[i + part.len()] == '\t',
    ensures
        part_end(s, i) == i + part.len(),
{
    let t = s.skip(i);
    lemma_position(t, '\t');
    let p = position(t, '\t');
    assert(t[part.len() as int] == '\t');
    if p < part.len() {
        assert(part[p] == s.subrange(i, i + part.len())[p]);
        assert(part[p] == t[p]);
        assert(part.contains(part[p]));
    }
}

/// The line of a change says the change.
proof fn lemma_line_read(e: UlogView)
    ensures
        entry_of(entry_line(e)) == Ok::<UlogView, Seq<char>>(e),
        entry_line(e).len() > 0,
{
    let s = entry_line(e);
    let d1 = decimal(e.sno as nat);
    let d2 = decimal(e.time as nat);
    let d3: Seq<char> = if e.deleted {
        seq!['1']
    } else {
        seq!['0']
    };
    lemma_plain(e.sno as nat);
    lemma_plain(e.time as nat);
    law_decimal_round_trip(e.sno as nat);
    law_decimal_round_trip(e.time as nat);
    let a = d1.len() as int;
    let b = a + 1 + d2.len();
    let c = b + 1 + 1;
    assert(s.subrange(0, a) =~= d1);
    assert(s.take(a) =~= d1);
    assert(s[a] == '\t');
    lemma_tab(s, 0, d1);
    assert(s.subrange(a + 1, b) =~= d2);
    assert(s[b] == '\t');
    lemma_tab(s, a + 1, d2);
    assert(s.subrange(b + 1, c) =~= d3);
    assert(s[c] == '\t');
    assert(!d3.contains('\t'));
    lemma_tab(s, b + 1, d3);
    assert(s.skip(c + 1) =~= e.name);
    if !e.deleted {
        assert(d3[0] != seq!['1'][0]);
    }
}

/// The lines of changes say the changes.
proof fn lemma_entries_read(v: Seq<UlogView>)
    requires
        forall|i: int|
            0 <= i < v.len() ==> !(#[trigger] v[i]).name.contains('\n') && (v[i].name.len() > 0
                ==> v[i].name.last() != '\r'),
    ensures
        lines(entries_text(v)).len() == v.len(),
        forall|i: int| 0 <= i < v.len() ==> lines(entries_text(v))[i] == entry_line(#[trigger] v[i]),
    decreases v.len(),
{
    if v.len() > 0 {
        let rest = v.drop_first();
        assert forall|i: int| 0 <= i < rest.len() implies !(#[trigger] rest[i]).name.contains('\n')
            && (rest[i].name.len() > 0 ==> rest[i].name.last() != '\r') by {
            assert(rest[i] == v[i + 1]);
        }
        lemma_entries_read(rest);
        let e = v[0];
        let s = entry_line(e);
        lemma_plain(e.sno as nat);
        lemma_plain(e.time as nat);
        assert(!v[0].name.contains('\n'));
        let d1 = decimal(e.sno as nat);
        let d2 = decimal(e.time as nat);
        assert forall|k: int| 0 <= k < s.len() implies s[k] != '\n' by {
            if k < d1.len() {
                assert(s[k] == d1[k]);
            } else if d1.len() < k < d1.len() + 1 + d2.len() {
                assert(s[k] == d2[k - d1.len() - 1]);
            } else if k >= d1.len() + d2.len() + 4 {
                assert(s[k] == e.name[k - d1.len() - d2.len() - 4]);
            }
        }
        if e.name.len() > 0 {
            assert(s.last() == e.name.last());
        } else {
            assert(s.last() == '\t');
        }
        lemma_lines_front(s, entries_text(rest));
        let ls = lines(entries_text(v));
        assert(ls == seq![s] + lines(entries_text(rest)));
        assert forall|i: int| 0 <= i < v.len() implies ls[i] == entry_line(#[trigger] v[i]) by {
            if i > 0 {
                assert(ls[i] == lines(entries_text(rest))[i - 1]);
                assert(rest[i - 1] == v[i]);
            }
        }
    } else {
        assert(lines(Seq::<char>::empty()).len() == 0);
    }
}

/// Lines that say changes, one each.
proof fn lemma_entries_all(ls: Seq<Seq<char>>, v: Seq<UlogView>)
    requires
        ls.len() == v.len(),
        forall|i: int| 0 <= i < v.len() ==> ls[i] == entry_line(#[trigger] v[i]),
    ensures
        entries_of(ls) == Ok::<Seq<UlogView>, Seq<char>>(v),
    decreases v.len(),
{
    if v.len() == 0 {
        assert(v =~= Seq::<UlogView>::empty());
    } else {
        let n = v.len() - 1;
        assert forall|i: int| 0 <= i < n implies ls.drop_last()[i] == entry_line(
            #[trigger] v.drop_last()[i],
        ) by {
            assert(v.drop_last()[i] == v[i]);
        }
        lemma_entries_all(ls.drop_last(), v.drop_last());
        assert(ls[n] == entry_line(v[n]));
        lemma_line_read(v.last());
        assert(v.drop_last().push(v.last()) =~= v);
    }
}

/// Reading a log that was written gives the changes back, where no name holds
/// a line end or ends in a carriage return.
pub proof fn law_ulog_round_trip(v: Seq<UlogView>)
    requires
        forall|i: int|
            0 <= i < v.len() ==> !(#[trigger] v[i]).name.contains('\n') && (v[i].name.len() > 0
                ==> v[i].name.last() != '\r'),
    ensures
        spec_load_ulog(ulog_text(v)) == Ok::<Seq<UlogView>, Seq<char>>(v),
{
    reveal_strlit("ulog 1");
    reveal_strlit("ulog ");
    lemma_entries_read(v);
    lemma_lines_front("ulog 1"@, entries_text(v));
    let ls = lines(ulog_text(v));
    assert(ls.drop_first() =~= lines(entries_text(v)));
    assert("ulog "@.is_prefix_of(ls[0])) by {
        assert("ulog 1"@.subrange(0, 5) =~= "ulog "@);
    }
    lemma_entries_all(ls.drop_first(), v);
}

/// A line of a log is a number, a time, a mark and a principal, with tabs
/// between them: the principal was deleted where the mark is a one, and with
/// any other mark it was not.
pub proof fn law_only_a_one_marks_a_deletion(
    sno: u32,
    time: u32,
    mark: Seq<char>,
    name: Seq<char>,
)
    requires
        !mark.contains('\t'),
    ensures
        ({
            let s = decimal(sno as nat).push('\t') + decimal(time as nat).push('\t') + mark.push(
                '\t',
            ) + name;
            entry_of(s) matches Ok(e) && e.sno == sno && e.time == time && e.name == name
                && e.deleted == (mark == seq!['1'])
        }),
{
    let d1 = decimal(sno as nat);
    let d2 = decimal(time as nat);
    let s = d1.push('\t') + d2.push('\t') + mark.push('\t') + name;
    lemma_plain(sno as nat);
    lemma_plain(time as nat);
    law_decimal_round_trip(sno as nat);
    law_decimal_round_trip(time as nat);
    let a = d1.len() as int;
    let b = a + 1 + d2.len();
    let c = b + 1 + mark.len();
    assert(s.subrange(0, a) =~= d1);
    assert(s.take(a) =~= d1);
    assert(s[a] == '\t');
    lemma_tab(s, 0, d1);
    assert(s.subrange(a + 1, b) =~= d2);
    assert(s[b] == '\t');
    lemma_tab(s, a + 1, d2);
    assert(s.subrange(b + 1, c) =~= mark);
    assert(s[c] == '\t');
    lemma_tab(s, b + 1, mark);
    assert(s.skip(c + 1) =~= name);
}

/// A line without a number in front is refused for its number, and one with
/// nothing behind the number for its time.
pub proof fn law_line_starts_with_a_number(s: Seq<char>)
    requires
        !s.contains('\t'),
    ensures
        number(s) is None ==> entry_of(s) == Err::<UlogView, Seq<char>>("ulog sno"@),
        number(s) is Some ==> entry_of(s) == Err::<UlogView, Seq<char>>("ulog time"@),
{
    lemma_position(s.skip(0), '\t');
    assert(s.skip(0) =~= s);
    let p = position(s, '\t');
    if p < s.len() {
        assert(s[p] == '\t');
    }
    assert(s.take(s.len() as int) =~= s);
}

/// Lines are read in order: an empty one says nothing, a right one adds its
/// change behind the others, and a wrong one makes the log wrong, whatever
/// stands behind it.
pub proof fn law_lines_are_read_in_order(ls: Seq<Seq<char>>, line: Seq<char>)
    ensures
        entries_of(ls) is Err ==> entries_of(ls.push(line)) == entries_of(ls),
        line.len() == 0 ==> entries_of(ls.push(line)) == entries_of(ls),
        entries_of(ls) matches Ok(v) ==> line.len() > 0 ==> match entry_of(line) {
            Ok(x) => entries_of(ls.push(line)) == Ok::<Seq<UlogView>, Seq<char>>(v.push(x)),
            Err(e) => entries_of(ls.push(line)) == Err::<Seq<UlogView>, Seq<char>>(e),
        },
{
    assert(ls.push(line).drop_last() =~= ls);
}

/// A log whose first line does not start as a header does is refused, and one
/// without a line says nothing.
pub proof fn law_log_has_a_header(text: Seq<char>)
    ensures
        lines(text).len() > 0 && !"ulog "@.is_prefix_of(lines(text)[0]) ==> spec_load_ulog(text)
            == Err::<Seq<UlogView>, Seq<char>>("ulog header"@),
        text.len() == 0 ==> spec_load_ulog(text) == Ok::<Seq<UlogView>, Seq<char>>(Seq::empty()),
{
}

} // verus!
