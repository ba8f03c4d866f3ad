//! Text as sequences of characters: comparison, building, splitting and
//! number notation.

use vstd::prelude::*;
use vstd::string::*;
use vstd::utf8::*;

verus! {

/// `String::push` appends one character at the end.
pub assume_specification[ String::push ](s: &mut String, c: char)
    ensures
        final(s)@ == old(s)@.push(c),
;

/// The characters of `s`.
pub fn chars_of(s: &str) -> (r: Vec<char>)
    ensures
        r@ == s@,
{
    let mut out: Vec<char> = Vec::new();
    for c in it: s.chars()
        invariant
            it.seq() == s@,
            out@ == s@.take(it.index()),
    {
        proof {
            assert(s@.take(it.index() + 1) =~= s@.take(it.index()).push(c));
        }
        out.push(c);
    }
    proof {
        assert(s@.take(s@.len() as int) =~= s@);
    }
    out
}

/// The string made of `cs`.
pub fn string_of(cs: &[char]) -> (r: String)
    ensures
        r@ == cs@,
{
    let mut out = String::new();
    let mut i: usize = 0;
    while i < cs.len()
        invariant
            i <= cs.len(),
            out@ == cs@.take(i as int),
        decreases cs.len() - i,
    {
        proof {
            assert(cs@.take(i + 1) =~= cs@.take(i as int).push(cs@[i as int]));
        }
        out.push(cs[i]);
        i = i + 1;
    }
    proof {
        assert(cs@.take(cs@.len() as int) =~= cs@);
    }
    out
}

/// Whether `a` and `b` hold the same characters.
pub fn str_eq(a: &str, b: &str) -> (r: bool)
    ensures
        r == (a@ == b@),
{
    let x = a.as_bytes();
    let y = b.as_bytes();
    proof {
        encode_utf8_decode_utf8(a@);
        encode_utf8_decode_utf8(b@);
    }
    let r = crate::bytes::slice_eq(x, y);
    r
}

/// The views of a list of strings.
pub open spec fn views(v: Seq<String>) -> Seq<Seq<char>> {
    v.map_values(|s: String| s@)
}

/// `parts` with `sep` between each two.
pub open spec fn join(parts: Seq<Seq<char>>, sep: char) -> Seq<char>
    decreases parts.len(),
{
    if parts.len() == 0 {
        Seq::empty()
    } else if parts.len() == 1 {
        parts[0]
    } else {
        join(parts.drop_last(), sep).push(sep) + parts.last()
    }
}

/// Joins `parts` with `sep` between each two.
pub fn join_strings(parts: &[String], sep: char) -> (r: String)
    ensures
        r@ == join(views(parts@), sep),
{
    let mut out = String::new();
    let mut i: usize = 0;
    let ghost all = views(parts@);
    while i < parts.len()
        invariant
            i <= parts.len(),
            all == views(parts@),
            out@ == join(all.take(i as int), sep),
        decreases parts.len() - i,
    {
        proof {
            assert(all.take(i + 1).drop_last() =~= all.take(i as int));
            assert(all.take(i + 1).last() == parts@[i as int]@);
        }
        if i > 0 {
            out.push(sep);
        }
        proof {
            if i == 0 {
                assert(out@ + parts@[i as int]@ =~= parts@[i as int]@);
            }
        }
        out.append(parts[i].as_str());
        i = i + 1;
    }
    proof {
        assert(all.take(all.len() as int) =~= all);
    }
    out
}

/// The first position of `c` in `s`, or the length of `s` where there is
/// none.
pub open spec fn position(s: Seq<char>, c: char) -> int
    decreases s.len(),
{
    if s.len() == 0 {
        0
    } else if s[0] == c {
        0
    } else {
        1 + position(s.drop_first(), c)
    }
}

/// The last position of `c` in `s`, or -1 where there is none.
pub open spec fn last_position(s: Seq<char>, c: char) -> int
    decreases s.len(),
{
    if s.len() == 0 {
        -1
    } else if s.last() == c {
        s.len() - 1
    } else {
        last_position(s.drop_last(), c)
    }
}

/// `last_position` is the last place where `c` stands.
pub proof fn lemma_last_position(s: Seq<char>, c: char)
    ensures
        -1 <= last_position(s, c) < s.len(),
        last_position(s, c) >= 0 ==> s[last_position(s, c)] == c,
        forall|k: int| last_position(s, c) < k < s.len() ==> s[k] != c,
    decreases s.len(),
{
    if s.len() > 0 && s.last() != c {
        let t = s.drop_last();
        lemma_last_position(t, c);
        assert forall|k: int| last_position(s, c) < k < s.len() implies s[k] != c by {
            if k < t.len() {
                assert(t[k] == s[k]);
            }
        }
    }
}

/// `position` is the first place where `c` stands.
pub proof fn lemma_position(s: Seq<char>, c: char)
    ensures
        0 <= position(s, c) <= s.len(),
        position(s, c) < s.len() ==> s[position(s, c)] == c,
        forall|k: int| 0 <= k < position(s, c) ==> s[k] != c,
    decreases s.len(),
{
    if s.len() > 0 && s[0] != c {
        let t = s.drop_first();
        lemma_position(t, c);
        assert forall|k: int| 0 <= k < position(s, c) implies s[k] != c by {
            if k > 0 {
                assert(t[k - 1] == s[k]);
            }
        }
    }
}

/// The last position of `c` in `cs`.
pub fn last_position_of(cs: &[char], c: char) -> (r: Option<usize>)
    ensures
        match r {
            Some(i) => i == last_position(cs@, c) && i < cs.len(),
            None => last_position(cs@, c) == -1,
        },
{
    let mut i: usize = cs.len();
    proof {
        assert(cs@.take(cs@.len() as int) =~= cs@);
    }
    while i > 0
        invariant
            i <= cs.len(),
            last_position(cs@, c) == last_position(cs@.take(i as int), c),
        decreases i,
    {
        proof {
            assert(cs@.take(i as int).last() == cs@[i - 1]);
            assert(cs@.take(i as int).drop_last() =~= cs@.take(i - 1));
        }
        i = i - 1;
        if cs[i] == c {
            return Some(i);
        }
    }
    None
}

/// The parts of `s` between the places where `c` stands.
pub open spec fn split(s: Seq<char>, c: char) -> Seq<Seq<char>>
    decreases s.len(),
    via split_decreases
{
    if position(s, c) >= s.len() {
        seq![s]
    } else {
        seq![s.take(position(s, c))] + split(s.skip(position(s, c) + 1), c)
    }
}

#[via_fn]
proof fn split_decreases(s: Seq<char>, c: char) {
    lemma_position(s, c);
}

/// Splits `cs` at each `c`.
pub fn split_chars(cs: &[char], c: char) -> (r: Vec<String>)
    ensures
        views(r@) == split(cs@, c),
{
    let mut out: Vec<String> = Vec::new();
    let mut start: usize = 0;
    proof {
        assert(cs@.skip(0) =~= cs@);
        assert(views(out@) + split(cs@, c) =~= split(cs@, c));
    }
    loop
        invariant
            start <= cs.len(),
            views(out@) + split(cs@.skip(start as int), c) == split(cs@, c),
        decreases cs.len() - start,
    {
        let mut i: usize = start;
        while i < cs.len() && cs[i] != c
            invariant
                start <= i <= cs.len(),
                forall|k: int| start <= k < i ==> cs@[k] != c,
            decreases cs.len() - i,
        {
            i = i + 1;
        }
        let part = range_string(cs, start, i);
        let ghost rest = cs@.skip(start as int);
        let ghost before = out@;
        proof {
            lemma_position(rest, c);
            let p = position(rest, c);
            if p < i - start {
                assert(rest[p] == cs@[start + p]);
            }
            if i < cs.len() && p > i - start {
                assert(rest[i - start] == cs@[i as int]);
            }
            assert(p == i - start);
            assert(rest.take(p) =~= cs@.subrange(start as int, i as int));
        }
        out.push(part);
        proof {
            assert(views(out@) =~= views(before).push(part@));
        }
        if i == cs.len() {
            proof {
                assert(rest.take(rest.len() as int) =~= rest);
                assert(views(out@) =~= views(before) + seq![rest]);
            }
            return out;
        }
        proof {
            assert(rest.skip(position(rest, c) + 1) =~= cs@.skip(i + 1));
            assert(views(out@) + split(cs@.skip(i + 1), c) =~= views(before) + (seq![part@] + split(
                cs@.skip(i + 1),
                c,
            )));
        }
        start = i + 1;
    }
}

/// Characters `i..j` of `cs` as a string.
pub fn range_string(cs: &[char], i: usize, j: usize) -> (r: String)
    requires
        i <= j <= cs.len(),
    ensures
        r@ == cs@.subrange(i as int, j as int),
{
    string_of(vstd::slice::slice_subrange(cs, i, j))
}

/// `a` comes before `b` in the order of characters.
pub open spec fn precedes(a: Seq<char>, b: Seq<char>) -> bool
    decreases a.len(),
{
    if b.len() == 0 {
        false
    } else if a.len() == 0 {
        true
    } else if a[0] != b[0] {
        (a[0] as u32) < (b[0] as u32)
    } else {
        precedes(a.drop_first(), b.drop_first())
    }
}

/// Nothing comes both before and behind, nor before itself.
pub proof fn lemma_precedes_asymmetric(a: Seq<char>, b: Seq<char>)
    requires
        precedes(a, b),
    ensures
        !precedes(b, a),
        a != b,
    decreases a.len(),
{
    if a.len() > 0 && a[0] == b[0] {
        lemma_precedes_asymmetric(a.drop_first(), b.drop_first());
    }
}

/// The order is transitive.
pub proof fn lemma_precedes_transitive(a: Seq<char>, b: Seq<char>, c: Seq<char>)
    requires
        precedes(a, b),
        precedes(b, c),
    ensures
        precedes(a, c),
    decreases a.len(),
{
    if a.len() > 0 && a[0] == b[0] && b[0] == c[0] {
        lemma_precedes_transitive(a.drop_first(), b.drop_first(), c.drop_first());
    }
}

/// Of two different texts one comes first.
pub proof fn lemma_precedes_total(a: Seq<char>, b: Seq<char>)
    requires
        a != b,
    ensures
        precedes(a, b) || precedes(b, a),
    decreases a.len(),
{
    if a.len() == 0 || b.len() == 0 {
        if a.len() == 0 && b.len() == 0 {
            assert(a =~= b);
        }
    } else if a[0] == b[0] {
        if a.drop_first() == b.drop_first() {
            assert(a =~= seq![a[0]] + a.drop_first());
            assert(b =~= seq![b[0]] + b.drop_first());
        } else {
            lemma_precedes_total(a.drop_first(), b.drop_first());
        }
    } else {
        char_u32_cast(a[0], a[0] as u32);
        char_u32_cast(b[0], b[0] as u32);
    }
}

/// Whether `a` comes before `b`.
pub fn str_precedes(a: &str, b: &str) -> (r: bool)
    ensures
        r == precedes(a@, b@),
{
    let x = chars_of(a);
    let y = chars_of(b);
    let mut i: usize = 0;
    proof {
        assert(x@.skip(0) =~= x@);
        assert(y@.skip(0) =~= y@);
    }
    while i < x.len() && i < y.len()
        invariant
            x@ == a@,
            y@ == b@,
            i <= x.len(),
            i <= y.len(),
            precedes(x@, y@) == precedes(x@.skip(i as int), y@.skip(i as int)),
        decreases x.len() - i,
    {
        if x[i] != y[i] {
            return (x[i] as u32) < (y[i] as u32);
        }
        proof {
            assert(x@.skip(i as int).drop_first() =~= x@.skip(i + 1));
            assert(y@.skip(i as int).drop_first() =~= y@.skip(i + 1));
        }
        i = i + 1;
    }
    i < y.len()
}

/// What lists of characters say.
pub open spec fn char_lists(v: Seq<Vec<char>>) -> Seq<Seq<char>> {
    v.map_values(|x: Vec<char>| x@)
}

/// Adds characters.
pub fn append_chars(out: &mut Vec<char>, cs: &[char])
    ensures
        final(out)@ == old(out)@ + cs@,
{
    let ghost before = out@;
    let mut i: usize = 0;
    proof {
        assert(before + cs@.take(0) =~= before);
    }
    while i < cs.len()
        invariant
            i <= cs.len(),
            out@ == before + cs@.take(i as int),
        decreases cs.len() - i,
    {
        out.push(cs[i]);
        i = i + 1;
        proof {
            assert(out@ =~= before + cs@.take(i as int));
        }
    }
    proof {
        assert(cs@.take(cs@.len() as int) =~= cs@);
    }
}

/// The last part of a text that is split is what stands behind the last
/// separator, and each part in front is what stands before a separator.
pub proof fn lemma_split_step(s: Seq<char>, c: char)
    ensures
        split(s, c).len() > 0,
        position(s, c) >= s.len() ==> split(s, c) == seq![s],
        position(s, c) < s.len() ==> split(s, c) == seq![s.take(position(s, c))] + split(
            s.skip(position(s, c) + 1),
            c,
        ) && split(s, c).last() == split(s.skip(position(s, c) + 1), c).last(),
    decreases s.len(),
{
    lemma_position(s, c);
    if position(s, c) < s.len() {
        lemma_split_step(s.skip(position(s, c) + 1), c);
    }
}

/// A line without its carriage return.
pub open spec fn without_cr(s: Seq<char>) -> Seq<char> {
    if s.len() > 0 && s.last() == '\r' {
        s.drop_last()
    } else {
        s
    }
}

/// The lines of a text, without their ends; what stands behind the last line
/// end is a line where it is not empty.
pub open spec fn lines(s: Seq<char>) -> Seq<Seq<char>>
    decreases s.len(),
    via lines_decreases
{
    if s.len() == 0 {
        Seq::empty()
    } else if position(s, '\n') >= s.len() {
        seq![s]
    } else {
        seq![without_cr(s.take(position(s, '\n')))] + lines(s.skip(position(s, '\n') + 1))
    }
}

#[via_fn]
proof fn lines_decreases(s: Seq<char>) {
    lemma_position(s, '\n');
}

/// Splits a text into its lines.
pub fn lines_of(text: &str) -> (r: Vec<Vec<char>>)
    ensures
        char_lists(r@) == lines(text@),
{
    let cs = chars_of(text);
    let mut out: Vec<Vec<char>> = Vec::new();
    let mut start: usize = 0;
    proof {
        assert(cs@.skip(0) =~= cs@);
        assert(char_lists(out@) + lines(cs@) =~= lines(cs@));
    }
    while start < cs.len()
        invariant
            start <= cs.len(),
            cs@ == text@,
            char_lists(out@) + lines(cs@.skip(start as int)) == lines(cs@),
        decreases cs.len() - start,
    {
        let ghost s = cs@.skip(start as int);
        let ghost before = out@;
        let mut i: usize = start;
        while i < cs.len() && cs[i] != '\n'
            invariant
                start <= i <= cs.len(),
                forall|k: int| start <= k < i ==> cs@[k] != '\n',
            decreases cs.len() - i,
        {
            i = i + 1;
        }
        proof {
            lemma_position(s, '\n');
            let p = position(s, '\n');
            if p < i - start {
                assert(s[p] == cs@[start + p]);
            }
            if i < cs.len() && p > i - start {
                assert(s[i - start] == cs@[i as int]);
            }
            assert(p == i - start);
            assert(s.take(p) =~= cs@.subrange(start as int, i as int));
        }
        let mut line: Vec<char> = Vec::new();
        if i == cs.len() {
            append_chars(&mut line, vstd::slice::slice_subrange(cs.as_slice(), start, i));
            proof {
                assert(line@ =~= s);
            }
            let ghost last = line@;
            out.push(line);
            proof {
                assert(char_lists(out@) =~= char_lists(before) + seq![last]);
            }
            return out;
        }
        let end: usize = if i > start && cs[i - 1] == '\r' {
            i - 1
        } else {
            i
        };
        append_chars(&mut line, vstd::slice::slice_subrange(cs.as_slice(), start, end));
        let ghost one = line@;
        proof {
            assert(one =~= without_cr(s.take(position(s, '\n'))));
            assert(s.skip(position(s, '\n') + 1) =~= cs@.skip(i + 1));
        }
        out.push(line);
        proof {
            assert(char_lists(out@) =~= char_lists(before).push(one));
            assert(char_lists(out@) + lines(cs@.skip(i + 1)) =~= char_lists(before) + (seq![one]
                + lines(cs@.skip(i + 1))));
        }
        start = i + 1;
    }
    proof {
        assert(cs@.skip(start as int) =~= Seq::<char>::empty());
        assert(char_lists(out@) + lines(Seq::<char>::empty()) =~= char_lists(out@));
    }
    out
}

/// White space.
pub open spec fn is_white(c: char) -> bool {
    let n = c as u32;
    ||| 0x09 <= n <= 0x0d
    ||| n == 0x20
    ||| n == 0x85
    ||| n == 0xa0
    ||| n == 0x1680
    ||| 0x2000 <= n <= 0x200a
    ||| n == 0x2028
    ||| n == 0x2029
    ||| n == 0x202f
    ||| n == 0x205f
    ||| n == 0x3000
}

/// Whether `c` is white space.
pub fn white(c: char) -> (r: bool)
    ensures
        r == is_white(c),
{
    let n: u32 = c as u32;
    (0x09 <= n && n <= 0x0d) || n == 0x20 || n == 0x85 || n == 0xa0 || n == 0x1680 || (0x2000 <= n
        && n <= 0x200a) || n == 0x2028 || n == 0x2029 || n == 0x202f || n == 0x205f || n == 0x3000
}

/// `s` without the white space at its end.
pub open spec fn trim_end(s: Seq<char>) -> Seq<char>
    decreases s.len(),
{
    if s.len() > 0 && is_white(s.last()) {
        trim_end(s.drop_last())
    } else {
        s
    }
}

/// `s` without the white space at its start and at its end.
pub open spec fn trim(s: Seq<char>) -> Seq<char>
    decreases s.len(),
{
    if s.len() > 0 && is_white(s[0]) {
        trim(s.drop_first())
    } else {
        trim_end(s)
    }
}

/// Where a text without the white space around it starts and ends.
pub fn trim_range(cs: &[char]) -> (r: (usize, usize))
    ensures
        r.0 <= r.1 <= cs@.len(),
        cs@.subrange(r.0 as int, r.1 as int) == trim(cs@),
{
    let mut i: usize = 0;
    proof {
        assert(cs@.skip(0) =~= cs@);
    }
    while i < cs.len() && white(cs[i])
        invariant
            i <= cs@.len(),
            trim(cs@.skip(i as int)) == trim(cs@),
        decreases cs@.len() - i,
    {
        proof {
            assert(cs@.skip(i as int).drop_first() =~= cs@.skip(i + 1));
        }
        i = i + 1;
    }
    let mut j: usize = cs.len();
    proof {
        assert(cs@.subrange(i as int, j as int) =~= cs@.skip(i as int));
        assert(i < cs@.len() ==> !is_white(cs@.skip(i as int)[0]));
    }
    while j > i && white(cs[j - 1])
        invariant
            i <= j <= cs@.len(),
            trim_end(cs@.subrange(i as int, j as int)) == trim(cs@),
        decreases j,
    {
        proof {
            assert(cs@.subrange(i as int, j as int).drop_last() =~= cs@.subrange(i as int, j - 1));
        }
        j = j - 1;
    }
    (i, j)
}

/// `a` and `b` one after the other.
pub fn concat(a: &str, b: &str) -> (r: String)
    ensures
        r@ == a@ + b@,
{
    let mut out = String::new();
    out.append(a);
    out.append(b);
    proof {
        assert(out@ =~= a@ + b@);
    }
    out
}

/// Whether `cs` starts with `p`.
pub fn has_prefix(cs: &[char], p: &str) -> (r: bool)
    ensures
        r == p@.is_prefix_of(cs@),
{
    let ps = chars_of(p);
    if ps.len() > cs.len() {
        return false;
    }
    let mut i: usize = 0;
    while i < ps.len()
        invariant
            i <= ps@.len() <= cs@.len(),
            ps@ == p@,
            forall|k: int| 0 <= k < i ==> ps@[k] == cs@[k],
        decreases ps@.len() - i,
    {
        if ps[i] != cs[i] {
            proof {
                if p@.is_prefix_of(cs@) {
                    assert(cs@.subrange(0, p@.len() as int)[i as int] == cs@[i as int]);
                }
            }
            return false;
        }
        i = i + 1;
    }
    proof {
        assert(p@ =~= cs@.subrange(0, p@.len() as int));
    }
    true
}

/// Texts that hold no separator, joined with it and split at it, are the
/// texts again.
pub proof fn law_split_of_join(parts: Seq<Seq<char>>, c: char)
    requires
        parts.len() > 0,
        forall|i: int| 0 <= i < parts.len() ==> !(#[trigger] parts[i]).contains(c),
    ensures
        split(join(parts, c), c) == parts,
    decreases parts.len(),
{
    if parts.len() == 1 {
        let s = parts[0];
        lemma_position(s, c);
        assert(!parts[0].contains(c));
        if position(s, c) < s.len() {
            assert(s[position(s, c)] == c);
        }
        assert(parts =~= seq![s]);
    } else {
        let front = parts.drop_last();
        let last = parts.last();
        assert(!parts[parts.len() - 1].contains(c));
        assert forall|i: int| 0 <= i < front.len() implies !(#[trigger] front[i]).contains(c) by {
            assert(front[i] == parts[i]);
        }
        law_split_of_join(front, c);
        lemma_split_end(join(front, c), last, c);
        assert(front.push(last) =~= parts);
    }
}

/// One more part at the end of a text.
pub proof fn lemma_split_end(s: Seq<char>, last: Seq<char>, c: char)
    requires
        !last.contains(c),
    ensures
        split(s.push(c) + last, c) == split(s, c).push(last),
    decreases s.len(),
{
    let t = s.push(c) + last;
    lemma_position(s, c);
    lemma_position(t, c);
    let p = position(s, c);
    let q = position(t, c);
    assert(t[s.len() as int] == c);
    if q < p {
        assert(t[q] == s[q]);
    }
    if p < q {
        assert(t[p] == c);
    }
    assert(p == q);
    if p >= s.len() {
        assert(t.take(p) =~= s);
        assert(t.skip(p + 1) =~= last);
        lemma_position(last, c);
        if position(last, c) < last.len() {
            assert(last[position(last, c)] == c);
        }
        assert(split(last, c) == seq![last]);
        assert(split(s, c).push(last) =~= seq![s] + seq![last]);
    } else {
        assert(t.take(p) =~= s.take(p));
        assert(t.skip(p + 1) =~= s.skip(p + 1).push(c) + last);
        lemma_split_end(s.skip(p + 1), last, c);
        assert(split(s, c).push(last) =~= seq![s.take(p)] + split(s.skip(p + 1), c).push(last));
    }
}

/// The lines of a line and a text behind it.
pub proof fn lemma_lines_front(line: Seq<char>, rest: Seq<char>)
    requires
        !line.contains('\n'),
        line.len() > 0 ==> line.last() != '\r',
    ensures
        lines(line.push('\n') + rest) == seq![line] + lines(rest),
{
    let t = line.push('\n') + rest;
    lemma_position(t, '\n');
    let p = position(t, '\n');
    assert(t[line.len() as int] == '\n');
    if p < line.len() {
        assert(t[p] == line[p]);
        assert(line.contains(line[p]));
    }
    assert(p == line.len());
    assert(t.take(p) =~= line);
    assert(t.skip(p + 1) =~= rest);
}

/// Every character is ASCII.
pub open spec fn all_ascii(s: Seq<char>) -> bool {
    forall|i: int| 0 <= i < s.len() ==> (#[trigger] s[i]) as u32 <= 127
}

/// Whether every character is ASCII.
pub fn is_ascii_text(s: &str) -> (r: bool)
    ensures
        r == all_ascii(s@),
{
    let cs = chars_of(s);
    let mut i: usize = 0;
    while i < cs.len()
        invariant
            i <= cs.len(),
            cs@ == s@,
            forall|k: int| 0 <= k < i ==> (#[trigger] s@[k]) as u32 <= 127,
        decreases cs.len() - i,
    {
        if cs[i] as u32 > 127 {
            proof {
                assert(s@[i as int] as u32 > 127);
            }
            return false;
        }
        i = i + 1;
    }
    true
}

/// A text without the white space at its ends has none there, and only white
/// space was taken off.
pub proof fn law_trimmed_text_has_no_white_ends(s: Seq<char>)
    ensures
        trim(s).len() > 0 ==> !is_white(trim(s)[0]) && !is_white(trim(s).last()),
        trim(s).len() <= s.len(),
        trim(trim(s)) == trim(s),
    decreases s.len(),
{
    if s.len() > 0 && is_white(s[0]) {
        law_trimmed_text_has_no_white_ends(s.drop_first());
    } else {
        lemma_trim_end(s);
        let t = trim_end(s);
        if t.len() > 0 {
            assert(trim_end(t) == t);
        }
    }
}

/// A text without the white space at its end is the front of the text.
proof fn lemma_trim_end(s: Seq<char>)
    ensures
        trim_end(s).len() <= s.len(),
        trim_end(s) == s.take(trim_end(s).len() as int),
        trim_end(s).len() > 0 ==> !is_white(trim_end(s).last()) && trim_end(s)[0] == s[0],
    decreases s.len(),
{
    if s.len() > 0 && is_white(s.last()) {
        lemma_trim_end(s.drop_last());
        let n = trim_end(s).len() as int;
        assert(s.drop_last().take(n) =~= s.take(n));
    } else {
        assert(s.take(s.len() as int) =~= s);
    }
}

/// White space in front of a text and behind it does not count.
pub proof fn law_white_space_around_does_not_count(s: Seq<char>, c: char)
    requires
        is_white(c),
    ensures
        trim(seq![c] + s) == trim(s),
{
    assert((seq![c] + s)[0] == c);
    assert((seq![c] + s).drop_first() =~= s);
}

/// The order of characters: a text stands in front of what it is the start of,
/// and the first character that differs decides.
pub proof fn law_first_difference_decides(a: Seq<char>, b: Seq<char>, c: char, d: char)
    ensures
        precedes(a, a.push(c)),
        !precedes(a, a),
        (c as u32) < (d as u32) ==> precedes(seq![c] + a, seq![d] + b),
        precedes(seq![c] + a, seq![c] + b) <==> precedes(a, b),
    decreases a.len(),
{
    assert((seq![c] + a)[0] == c && (seq![c] + a).drop_first() =~= a);
    assert((seq![d] + b)[0] == d);
    assert((seq![c] + b)[0] == c && (seq![c] + b).drop_first() =~= b);
    if a.len() > 0 {
        law_first_difference_decides(a.drop_first(), b, c, d);
        assert(a.push(c).drop_first() =~= a.drop_first().push(c));
    }
}

} // verus!
