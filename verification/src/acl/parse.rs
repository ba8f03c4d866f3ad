//! Reading access lists.

use crate::acl::pattern::{bad_name, parse_princ_pat_in, pattern_of, PatView, PrincPat};
use crate::acl::{AclEntry, Restrictions};
use crate::error::Error;
use crate::acl::restrict::{parse_restrictions, spec_restrictions, RestrictionsView};
use crate::text::{
    append_chars, char_lists, chars_of, lemma_position, lemma_split_step, position, range_string,
    split, str_eq, string_of, without_cr,
};
use vstd::prelude::*;
use vstd::slice::slice_subrange;
use vstd::string::*;

verus! {

/// A line that says something: neither empty nor a comment.
pub open spec fn says_something(s: Seq<char>) -> bool {
    s.len() > 0 && s[0] != '#'
}

/// A line as a list of one, or of none where it says nothing.
pub open spec fn kept(s: Seq<char>) -> Seq<Seq<char>> {
    if says_something(s) {
        seq![s]
    } else {
        Seq::empty()
    }
}

/// The lines that `parts` make, `cont` being a line that goes on: one that
/// ends in a backslash goes on with the next.
pub open spec fn joined_lines(parts: Seq<Seq<char>>, cont: Option<Seq<char>>) -> Seq<Seq<char>>
    decreases parts.len(),
{
    if parts.len() == 0 {
        match cont {
            Some(b) => kept(b),
            None => Seq::empty(),
        }
    } else {
        let chunk = without_cr(parts[0]);
        let rest = parts.drop_first();
        let head = match cont {
            Some(b) => b,
            None => Seq::empty(),
        };
        if chunk.len() > 0 && chunk.last() == '\\' {
            joined_lines(rest, Some(head + chunk.drop_last()))
        } else {
            kept(head + chunk) + joined_lines(rest, None)
        }
    }
}

/// The lines of a text; what stands behind the last line end is a line where
/// it is not empty.
pub open spec fn physical_lines(text: Seq<char>) -> Seq<Seq<char>> {
    let all = split(text, '\n');
    if all.last().len() == 0 {
        all.drop_last()
    } else {
        all
    }
}

/// The lines of a list that say something, with those joined that go on.
pub open spec fn spec_lines(text: Seq<char>) -> Seq<Seq<char>> {
    joined_lines(physical_lines(text), None)
}

/// The lines of what is left of a text: the first line, then the rest.
proof fn lemma_physical_step(s: Seq<char>)
    ensures
        position(s, '\n') >= s.len() ==> physical_lines(s) == (if s.len() == 0 {
            Seq::<Seq<char>>::empty()
        } else {
            seq![s]
        }),
        position(s, '\n') < s.len() ==> physical_lines(s) == seq![s.take(position(s, '\n'))]
            + physical_lines(s.skip(position(s, '\n') + 1)),
{
    lemma_position(s, '\n');
    lemma_split_step(s, '\n');
    if position(s, '\n') >= s.len() {
        if s.len() == 0 {
            assert(physical_lines(s) =~= Seq::<Seq<char>>::empty());
        }
    } else {
        let p = position(s, '\n');
        let rest = s.skip(p + 1);
        lemma_split_step(rest, '\n');
        let all = split(s, '\n');
        let more = split(rest, '\n');
        if all.last().len() == 0 {
            assert(all.drop_last() =~= seq![s.take(p)] + more.drop_last());
        }
    }
}

/// The lines of a list that say something.
pub fn logical_lines(text: &str) -> (r: Vec<Vec<char>>)
    ensures
        r@.len() == spec_lines(text@).len(),
        forall|k: int| 0 <= k < r@.len() ==> (#[trigger] r@[k])@ == spec_lines(text@)[k],
{
    let cs = chars_of(text);
    let mut out: Vec<Vec<char>> = Vec::new();
    let mut buf: Vec<char> = Vec::new();
    let mut continuing: bool = false;
    let mut start: usize = 0;
    proof {
        assert(cs@.skip(0) =~= cs@);
        assert(char_lists(out@) =~= Seq::<Seq<char>>::empty());
        assert(char_lists(out@) + spec_lines(text@) =~= spec_lines(text@));
    }
    while start < cs.len()
        invariant
            start <= cs.len(),
            cs@ == text@,
            !continuing ==> buf@.len() == 0,
            char_lists(out@) + joined_lines(
                physical_lines(cs@.skip(start as int)),
                if continuing {
                    Some(buf@)
                } else {
                    None
                },
            ) == spec_lines(text@),
        decreases cs.len() - start,
    {
        let ghost s = cs@.skip(start as int);
        let ghost cont = if continuing {
            Some(buf@)
        } else {
            None
        };
        let mut i: usize = start;
        while i < cs.len() && cs[i] != '\n'
            invariant
                start <= i <= cs.len(),
                forall|k: int| start <= k < i ==> cs@[k] != '\n',
            decreases cs.len() - i,
        {
            i = i + 1;
        }
        proof {
            lemma_position(s, '\n');
            let p = position(s, '\n');
            if p < i - start {
                assert(s[p] == cs@[start + p]);
            }
            if i < cs.len() && p > i - start {
                assert(s[i - start] == cs@[i as int]);
            }
            assert(p == i - start);
            lemma_physical_step(s);
            assert(s.take(p) =~= cs@.subrange(start as int, i as int));
            if i < cs.len() {
                assert(s.skip(p + 1) =~= cs@.skip(i + 1));
            } else {
                assert(s =~= cs@.subrange(start as int, i as int));
                lemma_physical_step(Seq::<char>::empty());
                lemma_position(Seq::<char>::empty(), '\n');
                assert(cs@.skip(cs@.len() as int) =~= Seq::<char>::empty());
            }
        }
        let mut end: usize = i;
        if end > start && cs[end - 1] == '\r' {
            end = end - 1;
        }
        let ghost line = cs@.subrange(start as int, i as int);
        let ghost chunk = cs@.subrange(start as int, end as int);
        let next: usize = if i < cs.len() {
            i + 1
        } else {
            i
        };
        let ghost rest = physical_lines(cs@.skip(next as int));
        proof {
            assert(without_cr(line) =~= chunk);
            assert(physical_lines(s) =~= seq![line] + rest);
            assert(physical_lines(s).drop_first() =~= rest);
            assert(physical_lines(s)[0] == line);
        }
        let ghost head = buf@;
        if end > start && cs[end - 1] == '\\' {
            append_chars(&mut buf, slice_subrange(cs.as_slice(), start, end - 1));
            proof {
                assert(chunk.drop_last() =~= cs@.subrange(start as int, end - 1));
                assert(head + chunk.drop_last() =~= buf@);
            }
            continuing = true;
        } else {
            append_chars(&mut buf, slice_subrange(cs.as_slice(), start, end));
            let ghost before = out@;
            proof {
                assert(head + chunk =~= buf@);
            }
            let mut fresh: Vec<char> = Vec::new();
            std::mem::swap(&mut buf, &mut fresh);
            if fresh.len() > 0 && fresh[0] != '#' {
                out.push(fresh);
                proof {
                    assert(char_lists(out@) =~= char_lists(before) + kept(head + chunk));
                }
            } else {
                proof {
                    assert(char_lists(before) + kept(head + chunk) =~= char_lists(before));
                }
            }
            continuing = false;
            proof {
                assert(char_lists(out@) + joined_lines(rest, None) =~= char_lists(before) + (kept(
                    head + chunk,
                ) + joined_lines(rest, None)));
            }
        }
        start = next;
    }
    proof {
        let none = Seq::<char>::empty();
        assert(cs@.skip(start as int) =~= none);
        lemma_position(none, '\n');
        lemma_physical_step(none);
    }
    let ghost before = out@;
    if continuing && buf.len() > 0 && buf[0] != '#' {
        out.push(buf);
        proof {
            assert(char_lists(out@) =~= char_lists(before) + kept(buf@));
        }
    } else {
        proof {
            assert(char_lists(before) + Seq::<Seq<char>>::empty() =~= char_lists(before));
        }
    }
    proof {
        assert(char_lists(out@) =~= spec_lines(text@));
        assert forall|k: int| 0 <= k < out@.len() implies (#[trigger] out@[k])@ == spec_lines(
            text@,
        )[k] by {
            assert(char_lists(out@)[k] == out@[k]@);
        }
    }
    out
}

/// White space at the end of a line.
pub open spec fn is_blank(c: char) -> bool {
    c == ' ' || c == '\t' || c == '\n' || c == '\u{000c}' || c == '\u{000b}' || c == '\r'
}

/// What separates fields: white space or a comma.
pub open spec fn is_separator(c: char) -> bool {
    is_blank(c) || c == ','
}

/// Whether `c` is white space.
fn blank(c: char) -> (r: bool)
    ensures
        r == is_blank(c),
{
    c == ' ' || c == '\t' || c == '\n' || c == '\u{000c}' || c == '\u{000b}' || c == '\r'
}

/// Whether `c` separates fields.
fn separator(c: char) -> (r: bool)
    ensures
        r == is_separator(c),
{
    blank(c) || c == ','
}

/// `s` without the white space at its end.
pub open spec fn trimmed(s: Seq<char>) -> Seq<char>
    decreases s.len(),
{
    if s.len() > 0 && is_blank(s.last()) {
        trimmed(s.drop_last())
    } else {
        s
    }
}

/// `s` without the separators at its start.
pub open spec fn past_separators(s: Seq<char>) -> Seq<char>
    decreases s.len(),
{
    if s.len() > 0 && is_separator(s[0]) {
        past_separators(s.drop_first())
    } else {
        s
    }
}

/// How long the word is that `s` starts with.
pub open spec fn word_len(s: Seq<char>) -> int
    decreases s.len(),
{
    if s.len() == 0 || is_separator(s[0]) {
        0
    } else {
        1 + word_len(s.drop_first())
    }
}

/// The word that `s` starts with.
pub open spec fn word(s: Seq<char>) -> Seq<char> {
    s.take(word_len(s))
}

/// What stands behind the word that `s` starts with.
pub open spec fn past_word(s: Seq<char>) -> Seq<char> {
    s.skip(word_len(s))
}

/// A word is no longer than what it stands in, and nothing else is lost.
pub proof fn lemma_word(s: Seq<char>)
    ensures
        0 <= word_len(s) <= s.len(),
        s.len() > 0 && !is_separator(s[0]) ==> word_len(s) > 0,
        past_separators(s).len() <= s.len(),
    decreases s.len(),
{
    if s.len() > 0 {
        lemma_word(s.drop_first());
    }
}

/// The place behind the separators from `from` on.
pub fn skip_separators(cs: &[char], from: usize, to: usize) -> (r: usize)
    requires
        from <= to <= cs.len(),
    ensures
        from <= r <= to,
        cs@.subrange(r as int, to as int) == past_separators(cs@.subrange(from as int, to as int)),
{
    let mut i: usize = from;
    while i < to && separator(cs[i])
        invariant
            from <= i <= to <= cs.len(),
            past_separators(cs@.subrange(from as int, to as int)) == past_separators(
                cs@.subrange(i as int, to as int),
            ),
        decreases to - i,
    {
        proof {
            assert(cs@.subrange(i as int, to as int).drop_first() =~= cs@.subrange(
                i + 1,
                to as int,
            ));
        }
        i = i + 1;
    }
    i
}

/// The place behind the word at `from`.
pub fn skip_word(cs: &[char], from: usize, to: usize) -> (r: usize)
    requires
        from <= to <= cs.len(),
    ensures
        from <= r <= to,
        r - from == word_len(cs@.subrange(from as int, to as int)),
        cs@.subrange(from as int, r as int) == word(cs@.subrange(from as int, to as int)),
        cs@.subrange(r as int, to as int) == past_word(cs@.subrange(from as int, to as int)),
{
    let ghost s = cs@.subrange(from as int, to as int);
    let mut i: usize = from;
    while i < to && !separator(cs[i])
        invariant
            from <= i <= to <= cs.len(),
            s == cs@.subrange(from as int, to as int),
            word_len(s) == (i - from) + word_len(cs@.subrange(i as int, to as int)),
        decreases to - i,
    {
        proof {
            assert(cs@.subrange(i as int, to as int).drop_first() =~= cs@.subrange(
                i + 1,
                to as int,
            ));
        }
        i = i + 1;
    }
    proof {
        assert(cs@.subrange(from as int, i as int) =~= word(s));
        assert(cs@.subrange(i as int, to as int) =~= past_word(s));
    }
    i
}

/// The fields of a line: administrator, operations, target, restrictions.
pub open spec fn fields(line: Seq<char>) -> (Seq<char>, Seq<char>, Option<Seq<char>>, Option<
    Seq<char>,
>) {
    let a = past_separators(trimmed(line));
    let b = past_separators(past_word(a));
    let c = past_separators(past_word(b));
    let d = past_separators(past_word(c));
    (
        word(a),
        word(b),
        if c.len() == 0 {
            None
        } else {
            Some(word(c))
        },
        if d.len() == 0 {
            None
        } else {
            Some(d)
        },
    )
}

/// What may be done.
#[derive(Clone, Copy, Debug, PartialEq, Eq, Structural)]
pub struct Ops {
    /// Add.
    pub add: bool,
    /// Delete.
    pub delete: bool,
    /// Inquire.
    pub inquire: bool,
    /// Extract keys.
    pub extract: bool,
    /// Change passwords.
    pub changepw: bool,
    /// Modify.
    pub modify: bool,
    /// Set keys.
    pub setkey: bool,
    /// List.
    pub list: bool,
    /// Propagate.
    pub propagate: bool,
}

/// Nothing may be done.
pub open spec fn no_ops() -> Ops {
    Ops {
        add: false,
        delete: false,
        inquire: false,
        extract: false,
        changepw: false,
        modify: false,
        setkey: false,
        list: false,
        propagate: false,
    }
}

/// All that `*` and `x` stand for is granted or revoked: everything but the
/// extraction of keys.
pub open spec fn all_ops(o: Ops, grant: bool) -> Ops {
    Ops {
        add: grant,
        delete: grant,
        inquire: grant,
        extract: o.extract,
        changepw: grant,
        modify: grant,
        setkey: grant,
        list: grant,
        propagate: grant,
    }
}

/// What a letter does: a small one grants, a capital revokes. Nothing where
/// the letter is not known.
pub open spec fn with_letter(o: Ops, c: char) -> Option<Ops> {
    match c {
        'a' => Some(Ops { add: true, ..o }),
        'A' => Some(Ops { add: false, ..o }),
        'd' => Some(Ops { delete: true, ..o }),
        'D' => Some(Ops { delete: false, ..o }),
        'i' => Some(Ops { inquire: true, ..o }),
        'I' => Some(Ops { inquire: false, ..o }),
        'e' => Some(Ops { extract: true, ..o }),
        'E' => Some(Ops { extract: false, ..o }),
        'c' => Some(Ops { changepw: true, ..o }),
        'C' => Some(Ops { changepw: false, ..o }),
        'm' => Some(Ops { modify: true, ..o }),
        'M' => Some(Ops { modify: false, ..o }),
        's' => Some(Ops { setkey: true, ..o }),
        'S' => Some(Ops { setkey: false, ..o }),
        'l' => Some(Ops { list: true, ..o }),
        'L' => Some(Ops { list: false, ..o }),
        'p' => Some(Ops { propagate: true, ..o }),
        'P' => Some(Ops { propagate: false, ..o }),
        '*' => Some(all_ops(o, true)),
        'x' => Some(all_ops(o, true)),
        'X' => Some(all_ops(o, false)),
        _ => None,
    }
}

/// What letters do one after the other, or the first that is not known.
pub open spec fn letters(s: Seq<char>) -> Result<Ops, char>
    decreases s.len(),
{
    if s.len() == 0 {
        Ok(no_ops())
    } else {
        match letters(s.drop_last()) {
            Err(c) => Err(c),
            Ok(o) => match with_letter(o, s.last()) {
                Some(x) => Ok(x),
                None => Err(s.last()),
            },
        }
    }
}

/// A letter that is not known stays the first.
proof fn lemma_letters_prefix(s: Seq<char>, i: int, c: char)
    requires
        0 <= i <= s.len(),
        letters(s.take(i)) == Err::<Ops, char>(c),
    ensures
        letters(s) == Err::<Ops, char>(c),
    decreases s.len() - i,
{
    if i < s.len() {
        assert(s.take(i + 1).drop_last() =~= s.take(i));
        lemma_letters_prefix(s, i + 1, c);
    } else {
        assert(s.take(i) =~= s);
    }
}

/// Applies a letter.
fn apply_letter(o: Ops, c: char) -> (r: Option<Ops>)
    ensures
        r == with_letter(o, c),
{
    let mut x = o;
    match c {
        'a' => {
            x.add = true;
        },
        'A' => {
            x.add = false;
        },
        'd' => {
            x.delete = true;
        },
        'D' => {
            x.delete = false;
        },
        'i' => {
            x.inquire = true;
        },
        'I' => {
            x.inquire = false;
        },
        'e' => {
            x.extract = true;
        },
        'E' => {
            x.extract = false;
        },
        'c' => {
            x.changepw = true;
        },
        'C' => {
            x.changepw = false;
        },
        'm' => {
            x.modify = true;
        },
        'M' => {
            x.modify = false;
        },
        's' => {
            x.setkey = true;
        },
        'S' => {
            x.setkey = false;
        },
        'l' => {
            x.list = true;
        },
        'L' => {
            x.list = false;
        },
        'p' => {
            x.propagate = true;
        },
        'P' => {
            x.propagate = false;
        },
        '*' => {
            x = set_all(o, true);
        },
        'x' => {
            x = set_all(o, true);
        },
        'X' => {
            x = set_all(o, false);
        },
        _ => {
            return None;
        },
    }
    Some(x)
}

/// Grants or revokes all that `*` stands for.
fn set_all(o: Ops, grant: bool) -> (r: Ops)
    ensures
        r == all_ops(o, grant),
{
    Ops {
        add: grant,
        delete: grant,
        inquire: grant,
        extract: o.extract,
        changepw: grant,
        modify: grant,
        setkey: grant,
        list: grant,
        propagate: grant,
    }
}

/// Reads operations.
pub fn parse_ops(cs: &[char]) -> (r: Result<Ops, char>)
    ensures
        r == letters(cs@),
{
    let mut o = Ops {
        add: false,
        delete: false,
        inquire: false,
        extract: false,
        changepw: false,
        modify: false,
        setkey: false,
        list: false,
        propagate: false,
    };
    let mut i: usize = 0;
    proof {
        assert(cs@.take(0) =~= Seq::<char>::empty());
    }
    while i < cs.len()
        invariant
            i <= cs.len(),
            letters(cs@.take(i as int)) == Ok::<Ops, char>(o),
        decreases cs.len() - i,
    {
        proof {
            assert(cs@.take(i + 1).drop_last() =~= cs@.take(i as int));
        }
        match apply_letter(o, cs[i]) {
            Some(x) => {
                o = x;
            },
            None => {
                proof {
                    lemma_letters_prefix(cs@, i + 1, cs@[i as int]);
                }
                return Err(cs[i]);
            },
        }
        i = i + 1;
    }
    proof {
        assert(cs@.take(cs@.len() as int) =~= cs@);
    }
    Ok(o)
}

/// A capital letter grants nothing that a later small one does not: an
/// operation is granted exactly where the last letter about it is small.
pub proof fn law_capital_revokes(s: Seq<char>)
    requires
        letters(s) is Ok,
    ensures
        letters(s.push('D')) matches Ok(o) && !o.delete && o == (Ops {
            delete: false,
            ..letters(s)->Ok_0
        }),
        letters(s.push('d')) matches Ok(o) && o.delete,
        letters(s.push('*')) matches Ok(o) && o.extract == (letters(s)->Ok_0).extract,
{
    assert(s.push('D').drop_last() =~= s);
    assert(s.push('d').drop_last() =~= s);
    assert(s.push('*').drop_last() =~= s);
}

/// What stands behind separators starts with none.
pub proof fn lemma_past_separators(s: Seq<char>)
    ensures
        past_separators(s).len() > 0 ==> !is_separator(past_separators(s)[0]),
        past_separators(past_separators(s)) == past_separators(s),
    decreases s.len(),
{
    if s.len() > 0 && is_separator(s[0]) {
        lemma_past_separators(s.drop_first());
    }
}

/// What an entry says.
#[verifier::ext_equal]
pub struct EntryView {
    /// The administrator's pattern as written.
    pub principal: Seq<char>,
    /// What may be done.
    pub ops: Ops,
    /// The administrator's pattern; none where any will do.
    pub client: Option<PatView>,
    /// The target's pattern; none where any will do.
    pub target: Option<PatView>,
    /// Restrictions.
    pub restrictions: Option<RestrictionsView>,
}

/// What an optional pattern says.
pub open spec fn pat_view(p: Option<PrincPat>) -> Option<PatView> {
    match p {
        Some(x) => Some(x@),
        None => None,
    }
}

impl View for AclEntry {
    type V = EntryView;

    open spec fn view(&self) -> EntryView {
        EntryView {
            principal: self.principal@,
            ops: Ops {
                add: self.add,
                delete: self.delete,
                inquire: self.inquire,
                extract: self.extract,
                changepw: self.changepw,
                modify: self.modify,
                setkey: self.setkey,
                list: self.list,
                propagate: self.propagate,
            },
            client: pat_view(self.client),
            target: pat_view(self.target),
            restrictions: match self.restrictions {
                Some(r) => Some(r@),
                None => None,
            },
        }
    }
}

/// A pattern, `*` being any.
pub open spec fn pattern_or_any(s: Seq<char>, realm: Seq<char>) -> Result<
    Option<PatView>,
    Seq<char>,
> {
    if s == "*"@ {
        Ok(None)
    } else {
        match pattern_of(s, realm) {
            Some(p) => Ok(Some(p)),
            None => Err(bad_name(s)),
        }
    }
}

/// The entry that a line stands for, or the text of its failure, in the order
/// in which it is read.
#[verifier::opaque]
pub open spec fn spec_parse_line(line: Seq<char>, realm: Seq<char>) -> Result<
    EntryView,
    Seq<char>,
> {
    let (client_s, ops_s, target_s, rs_s) = fields(line);
    if client_s.len() == 0 || ops_s.len() == 0 {
        Err("syntax error: "@ + line)
    } else {
        match letters(ops_s) {
            Err(c) => Err("Unrecognized ACL operation '"@ + seq![c] + "'"@),
            Ok(ops) => match pattern_or_any(client_s, realm) {
                Err(t) => Err(t),
                Ok(client) => {
                    let target = match target_s {
                        None => Ok(None),
                        Some(t) => pattern_or_any(t, realm),
                    };
                    match target {
                        Err(t) => Err(t),
                        Ok(target) => match rs_s {
                            None => Ok(
                                EntryView {
                                    principal: client_s,
                                    ops,
                                    client,
                                    target,
                                    restrictions: None,
                                },
                            ),
                            Some(rs) => match spec_restrictions(rs) {
                                None => Err("invalid restrictions: "@ + rs),
                                Some(v) => Ok(
                                    EntryView {
                                        principal: client_s,
                                        ops,
                                        client,
                                        target,
                                        restrictions: Some(v),
                                    },
                                ),
                            },
                        },
                    }
                },
            },
        }
    }
}

/// The place behind which a line is blank.
fn trim_end(cs: &[char]) -> (r: usize)
    ensures
        r <= cs.len(),
        cs@.subrange(0, r as int) == trimmed(cs@),
{
    let mut n: usize = cs.len();
    proof {
        assert(cs@.take(n as int) =~= cs@);
    }
    while n > 0 && blank(cs[n - 1])
        invariant
            n <= cs.len(),
            trimmed(cs@) == trimmed(cs@.take(n as int)),
        decreases n,
    {
        proof {
            assert(cs@.take(n as int).drop_last() =~= cs@.take(n - 1));
        }
        n = n - 1;
    }
    proof {
        assert(cs@.subrange(0, n as int) =~= cs@.take(n as int));
    }
    n
}

/// A failure with a text before and behind what it is about.
fn failure(before: &str, about: &[char], behind: &str) -> (r: Error)
    ensures
        r matches Error::AclParse(t) && t@ == before@ + about@ + behind@,
{
    let mut t = before.to_owned();
    let s = string_of(about);
    t.append(s.as_str());
    t.append(behind);
    Error::AclParse(t)
}

/// Reads a pattern, `*` being any.
fn parse_pattern_or_any(s: &str, realm: &str) -> (r: Result<Option<PrincPat>, Error>)
    ensures
        match pattern_or_any(s@, realm@) {
            Ok(v) => r matches Ok(p) && pat_view(p) == v,
            Err(t) => r matches Err(Error::AclParse(x)) && x@ == t,
        },
{
    if str_eq(s, "*") {
        return Ok(None);
    }
    match parse_princ_pat_in(s, realm) {
        Ok(p) => Ok(Some(p)),
        Err(e) => Err(e),
    }
}

/// Reads a line.
pub fn parse_line(line: &[char], realm: &str) -> (r: Result<AclEntry, Error>)
    ensures
        match spec_parse_line(line@, realm@) {
            Ok(v) => r matches Ok(e) && e@ == v,
            Err(t) => r matches Err(Error::AclParse(x)) && x@ == t,
        },
{
    proof {
        reveal(spec_parse_line);
    }
    let n: usize = trim_end(line);
    let a: usize = skip_separators(line, 0, n);
    let a2: usize = skip_word(line, a, n);
    let b: usize = skip_separators(line, a2, n);
    let b2: usize = skip_word(line, b, n);
    let c: usize = skip_separators(line, b2, n);
    let c2: usize = skip_word(line, c, n);
    let d: usize = skip_separators(line, c2, n);
    let ghost f = fields(line@);
    if a == a2 || b == b2 {
        let none = String::new();
        let e = failure("syntax error: ", line, none.as_str());
        proof {
            assert("syntax error: "@ + line@ + none@ =~= "syntax error: "@ + line@);
        }
        return Err(e);
    }
    let ops = match parse_ops(slice_subrange(line, b, b2)) {
        Err(ch) => {
            let one: Vec<char> = vec![ch];
            proof {
                assert(one@ =~= seq![ch]);
            }
            return Err(failure("Unrecognized ACL operation '", one.as_slice(), "'"));
        },
        Ok(o) => o,
    };
    let principal = range_string(line, a, a2);
    let client = match parse_pattern_or_any(principal.as_str(), realm) {
        Err(e) => {
            return Err(e);
        },
        Ok(p) => p,
    };
    let target: Option<PrincPat> = if c == n {
        None
    } else {
        let t = range_string(line, c, c2);
        match parse_pattern_or_any(t.as_str(), realm) {
            Err(e) => {
                return Err(e);
            },
            Ok(p) => p,
        }
    };
    let restrictions: Option<Restrictions> = if d == n {
        None
    } else {
        let rs = slice_subrange(line, d, n);
        match parse_restrictions(rs) {
            None => {
                let none = String::new();
                let e = failure("invalid restrictions: ", rs, none.as_str());
                proof {
                    assert("invalid restrictions: "@ + rs@ + none@ =~= "invalid restrictions: "@
                        + rs@);
                }
                return Err(e);
            },
            Some(x) => Some(x),
        }
    };
    Ok(
        AclEntry {
            principal,
            add: ops.add,
            delete: ops.delete,
            inquire: ops.inquire,
            extract: ops.extract,
            changepw: ops.changepw,
            modify: ops.modify,
            setkey: ops.setkey,
            list: ops.list,
            propagate: ops.propagate,
            client,
            target,
            restrictions,
        },
    )
}

/// An operation is granted by letters: its small letter, or `*` or `x` where
/// these stand for it, and behind it neither its capital nor an `X` that does.
pub open spec fn granted_by(s: Seq<char>, small: char, capital: char, starred: bool) -> bool {
    exists|i: int|
        0 <= i < s.len() && (#[trigger] s[i] == small || (starred && (s[i] == '*' || s[i] == 'x')))
            && forall|j: int|
            i < j < s.len() ==> #[trigger] s[j] != capital && !(starred && s[j] == 'X')
}

/// One more letter grants, revokes, or says nothing of an operation.
proof fn lemma_granted_push(s: Seq<char>, c: char, small: char, capital: char, starred: bool)
    requires
        small != capital,
        !(starred && (small == 'X' || capital == '*' || capital == 'x')),
    ensures
        granted_by(s.push(c), small, capital, starred) == (if c == small || (starred && (c == '*'
            || c == 'x')) {
            true
        } else if c == capital || (starred && c == 'X') {
            false
        } else {
            granted_by(s, small, capital, starred)
        }),
{
    let t = s.push(c);
    let n = s.len() as int;
    assert(t[n] == c);
    if granted_by(s, small, capital, starred) {
        let i = choose|i: int|
            0 <= i < s.len() && (#[trigger] s[i] == small || (starred && (s[i] == '*' || s[i]
                == 'x'))) && forall|j: int|
                i < j < s.len() ==> #[trigger] s[j] != capital && !(starred && s[j] == 'X');
        assert(t[i] == s[i]);
        if c != capital && !(starred && c == 'X') {
            assert forall|j: int| i < j < t.len() implies #[trigger] t[j] != capital && !(starred
                && t[j] == 'X') by {
                if j < n {
                    assert(s[j] == t[j]);
                }
            }
        }
    }
    if granted_by(t, small, capital, starred) {
        let i = choose|i: int|
            0 <= i < t.len() && (#[trigger] t[i] == small || (starred && (t[i] == '*' || t[i]
                == 'x'))) && forall|j: int|
                i < j < t.len() ==> #[trigger] t[j] != capital && !(starred && t[j] == 'X');
        if i < n {
            assert(s[i] == t[i]);
            assert forall|j: int| i < j < s.len() implies #[trigger] s[j] != capital && !(starred
                && s[j] == 'X') by {
                assert(t[j] == s[j]);
            }
        }
    }
}

/// An operation is granted exactly where the last letter about it grants it: a
/// add, d delete, m modify, c change password, i inquire, l list, s set key,
/// p propagate, all of these by `*` and `x` too, and e extract, which they do
/// not stand for.
pub proof fn law_last_letter_decides(s: Seq<char>)
    requires
        letters(s) is Ok,
    ensures
        letters(s)->Ok_0.add == granted_by(s, 'a', 'A', true),
        letters(s)->Ok_0.delete == granted_by(s, 'd', 'D', true),
        letters(s)->Ok_0.modify == granted_by(s, 'm', 'M', true),
        letters(s)->Ok_0.changepw == granted_by(s, 'c', 'C', true),
        letters(s)->Ok_0.inquire == granted_by(s, 'i', 'I', true),
        letters(s)->Ok_0.list == granted_by(s, 'l', 'L', true),
        letters(s)->Ok_0.setkey == granted_by(s, 's', 'S', true),
        letters(s)->Ok_0.propagate == granted_by(s, 'p', 'P', true),
        letters(s)->Ok_0.extract == granted_by(s, 'e', 'E', false),
    decreases s.len(),
{
    if s.len() > 0 {
        let t = s.drop_last();
        let c = s.last();
        law_last_letter_decides(t);
        assert(t.push(c) =~= s);
        lemma_granted_push(t, c, 'a', 'A', true);
        lemma_granted_push(t, c, 'd', 'D', true);
        lemma_granted_push(t, c, 'm', 'M', true);
        lemma_granted_push(t, c, 'c', 'C', true);
        lemma_granted_push(t, c, 'i', 'I', true);
        lemma_granted_push(t, c, 'l', 'L', true);
        lemma_granted_push(t, c, 's', 'S', true);
        lemma_granted_push(t, c, 'p', 'P', true);
        lemma_granted_push(t, c, 'e', 'E', false);
    }
}

/// Letters are read exactly where each is known, and the failure names the first
/// that is not.
pub proof fn law_known_letters_are_read(s: Seq<char>)
    ensures
        letters(s) is Ok <==> forall|i: int|
            0 <= i < s.len() ==> "adiecmslpADIECMSLP*xX"@.contains(#[trigger] s[i]),
        letters(s) matches Err(c) ==> !"adiecmslpADIECMSLP*xX"@.contains(c) && s.contains(c),
    decreases s.len(),
{
    let known = "adiecmslpADIECMSLP*xX"@;
    if s.len() > 0 {
        let t = s.drop_last();
        let c = s.last();
        law_known_letters_are_read(t);
        lemma_known_letter(no_ops(), c);
        if letters(t) is Ok {
            lemma_known_letter(letters(t)->Ok_0, c);
            assert(s[s.len() - 1] == c);
            assert(s.contains(c));
            if known.contains(c) {
                assert forall|i: int| 0 <= i < s.len() implies known.contains(#[trigger] s[i]) by {
                    if i < t.len() {
                        assert(t[i] == s[i]);
                    }
                }
            }
        } else {
            let e = letters(t)->Err_0;
            let k = choose|k: int| 0 <= k < t.len() && t[k] == e;
            assert(s[k] == e);
            assert(s.contains(e));
        }
    }
}

/// A letter does something exactly where it is one of those known.
proof fn lemma_known_letter(o: Ops, c: char)
    ensures
        with_letter(o, c) is Some <==> "adiecmslpADIECMSLP*xX"@.contains(c),
{
    reveal_strlit("adiecmslpADIECMSLP*xX");
    let k = "adiecmslpADIECMSLP*xX"@;
    assert(k[0] == 'a' && k[1] == 'd' && k[2] == 'i' && k[3] == 'e' && k[4] == 'c' && k[5] == 'm'
        && k[6] == 's' && k[7] == 'l' && k[8] == 'p');
    assert(k[9] == 'A' && k[10] == 'D' && k[11] == 'I' && k[12] == 'E' && k[13] == 'C' && k[14]
        == 'M' && k[15] == 'S' && k[16] == 'L' && k[17] == 'P');
    assert(k[18] == '*' && k[19] == 'x' && k[20] == 'X');
    if k.contains(c) {
        let i = choose|i: int| 0 <= i < k.len() && k[i] == c;
        assert(0 <= i < 21);
    }
}

/// A text that is one word: not empty, without white space and commas.
pub open spec fn is_word(s: Seq<char>) -> bool {
    s.len() > 0 && forall|i: int|
        0 <= i < s.len() ==> {
            &&& #[trigger] s[i] != ' '
            &&& s[i] != '\t'
            &&& s[i] != '\n'
            &&& s[i] != '\r'
            &&& s[i] != '\u{000b}'
            &&& s[i] != '\u{000c}'
            &&& s[i] != ','
        }
}

/// The word at the start of a text that goes on with a separator, or ends.
pub proof fn lemma_word_front(w: Seq<char>, rest: Seq<char>)
    requires
        forall|i: int| 0 <= i < w.len() ==> !is_separator(#[trigger] w[i]),
        rest.len() > 0 ==> is_separator(rest[0]),
    ensures
        word_len(w + rest) == w.len(),
        word(w + rest) == w,
        past_word(w + rest) == rest,
    decreases w.len(),
{
    let s = w + rest;
    if w.len() > 0 {
        let t = w.drop_first();
        assert forall|i: int| 0 <= i < t.len() implies !is_separator(#[trigger] t[i]) by {
            assert(t[i] == w[i + 1]);
        }
        lemma_word_front(t, rest);
        assert(s.drop_first() =~= t + rest);
        assert(s[0] == w[0]);
    } else {
        assert(s =~= rest);
    }
    assert(word(s) =~= w);
    assert(past_word(s) =~= rest);
}

/// The fields of a line are its words: the administrator, the operations, the
/// target where there is a third, and what stands behind that.
pub proof fn law_fields_of_a_line(a: Seq<char>, b: Seq<char>, c: Seq<char>, d: Seq<char>)
    requires
        is_word(a),
        is_word(b),
        is_word(c),
        d.len() > 0,
        !is_separator(d[0]),
        !is_blank(d.last()),
    ensures
        fields(a + seq![' '] + b) == (a, b, None::<Seq<char>>, None::<Seq<char>>),
        fields(a + seq![' '] + b + seq![' '] + c) == (a, b, Some(c), None::<Seq<char>>),
        fields(a + seq![' '] + b + seq![' '] + c + seq![' '] + d) == (a, b, Some(c), Some(d)),
{
    let none = Seq::<char>::empty();
    let sp = seq![' '];
    let l2 = a + sp + b;
    let l3 = a + sp + b + sp + c;
    let l4 = a + sp + b + sp + c + sp + d;
    assert(l2.last() == b[b.len() - 1]);
    assert(l3.last() == c[c.len() - 1]);
    assert(l4.last() == d.last());
    assert(l2[0] == a[0] && l3[0] == a[0] && l4[0] == a[0]);
    assert(l2 =~= a + (sp + b));
    assert(l3 =~= a + (sp + (b + (sp + c))));
    assert(l4 =~= a + (sp + (b + (sp + (c + (sp + d))))));
    lemma_word_front(a, sp + b);
    lemma_word_front(a, sp + (b + (sp + c)));
    lemma_word_front(a, sp + (b + (sp + (c + (sp + d)))));
    lemma_past_one(b);
    lemma_past_one(b + (sp + c));
    lemma_past_one(b + (sp + (c + (sp + d))));
    assert(b + none =~= b && c + none =~= c);
    lemma_word_front(b, none);
    lemma_word_front(b, sp + c);
    lemma_word_front(b, sp + (c + (sp + d)));
    lemma_past_one(c);
    lemma_past_one(c + (sp + d));
    lemma_word_front(c, none);
    lemma_word_front(c, sp + d);
    lemma_past_one(d);
    lemma_word_front(none, none);
    assert(none + none =~= none);
}

/// Behind one separator a text starts that starts with none.
proof fn lemma_past_one(s: Seq<char>)
    requires
        s.len() > 0,
        !is_separator(s[0]),
    ensures
        past_separators(seq![' '] + s) == s,
        past_separators(s) == s,
{
    assert((seq![' '] + s).drop_first() =~= s);
    assert((seq![' '] + s)[0] == ' ');
    reveal_with_fuel(past_separators, 2);
}

/// A line that neither is a comment nor goes on is the first of a list, and the
/// rest of the text is the rest of the list; a comment or an empty line is none.
pub proof fn law_first_line_is_read(line: Seq<char>, rest: Seq<char>)
    requires
        !line.contains('\n'),
        line.len() > 0 ==> line.last() != '\r' && line.last() != '\\',
    ensures
        line.len() > 0 && line[0] != '#' ==> spec_lines(line + seq!['\n'] + rest) == seq![line]
            + spec_lines(rest),
        line.len() == 0 || line[0] == '#' ==> spec_lines(line + seq!['\n'] + rest) == spec_lines(
            rest,
        ),
        line.len() > 0 && line[0] != '#' ==> spec_lines(line) == seq![line],
{
    let t = line + seq!['\n'] + rest;
    lemma_position(t, '\n');
    lemma_position(line, '\n');
    let p = position(t, '\n');
    assert(t[line.len() as int] == '\n');
    if p < line.len() {
        assert(t[p] == line[p]);
        assert(line.contains(line[p]));
    }
    assert(p == line.len());
    lemma_physical_step(t);
    assert(t.take(p) =~= line);
    assert(t.skip(p + 1) =~= rest);
    let parts = physical_lines(t);
    assert(parts[0] == line);
    assert(parts.drop_first() =~= physical_lines(rest));
    assert(without_cr(line) == line);
    assert(Seq::<char>::empty() + line =~= line);
    assert(kept(line) + spec_lines(rest) =~= (if line.len() > 0 && line[0] != '#' {
        seq![line] + spec_lines(rest)
    } else {
        spec_lines(rest)
    }));
    if position(line, '\n') < line.len() {
        assert(line.contains(line[position(line, '\n')]));
    }
    lemma_physical_step(line);
    if line.len() > 0 {
        let one = physical_lines(line);
        assert(one.drop_first() =~= Seq::<Seq<char>>::empty());
        assert(one[0] == line);
        reveal_with_fuel(joined_lines, 2);
        assert(kept(line) + Seq::<Seq<char>>::empty() =~= kept(line));
    }
}

/// A line that ends in a backslash goes on with the next.
pub proof fn law_backslash_joins_lines(line: Seq<char>, next: Seq<char>, rest: Seq<char>)
    requires
        !line.contains('\n'),
        !next.contains('\n'),
        next.len() > 0 ==> next.last() != '\r' && next.last() != '\\',
        line.len() > 0,
        line[0] != '#',
    ensures
        spec_lines(line + seq!['\\', '\n'] + next + seq!['\n'] + rest) == seq![line + next]
            + spec_lines(rest),
{
    let t = line + seq!['\\', '\n'] + next + seq!['\n'] + rest;
    let first = line.push('\\');
    let u = next + seq!['\n'] + rest;
    lemma_position(t, '\n');
    let p = position(t, '\n');
    assert(t[first.len() as int] == '\n');
    if p < first.len() {
        if p < line.len() {
            assert(t[p] == line[p]);
            assert(line.contains(line[p]));
        } else {
            assert(t[p] == '\\');
        }
    }
    assert(p == first.len());
    lemma_physical_step(t);
    assert(t.take(p) =~= first);
    assert(t.skip(p + 1) =~= u);
    lemma_position(u, '\n');
    let q = position(u, '\n');
    assert(u[next.len() as int] == '\n');
    if q < next.len() {
        assert(u[q] == next[q]);
        assert(next.contains(next[q]));
    }
    assert(q == next.len());
    lemma_physical_step(u);
    assert(u.take(q) =~= next);
    assert(u.skip(q + 1) =~= rest);
    let parts = physical_lines(t);
    assert(parts[0] == first);
    assert(parts.drop_first() =~= physical_lines(u));
    let more = physical_lines(u);
    assert(more[0] == next);
    assert(more.drop_first() =~= physical_lines(rest));
    assert(without_cr(first) == first);
    assert(without_cr(next) == next);
    assert(first.drop_last() =~= line);
    assert(Seq::<char>::empty() + line =~= line);
    assert((line + next)[0] == line[0]);
    assert(spec_lines(t) == joined_lines(more, Some(line)));
}

/// A wildcard alone is no pattern and matches all; any other text is the pattern
/// that it stands for, or is refused.
pub proof fn law_wildcard_alone_is_no_pattern(s: Seq<char>, realm: Seq<char>)
    ensures
        pattern_or_any("*"@, realm) == Ok::<Option<PatView>, Seq<char>>(None),
        s != "*"@ ==> pattern_or_any(s, realm) != Ok::<Option<PatView>, Seq<char>>(None),
        s != "*"@ ==> (pattern_or_any(s, realm) is Ok <==> pattern_of(s, realm) is Some),
        pattern_or_any(s, realm) matches Ok(Some(p)) ==> pattern_of(s, realm) == Some(p),
{
}

} // verus!
