//! Numbers in text: decimal and hexadecimal, written and read.

use vstd::prelude::*;
use vstd::string::*;

verus! {

/// The digit for `d`, which is below 16.
pub open spec fn digit_char(d: int) -> char {
    if d == 0 {
        '0'
    } else if d == 1 {
        '1'
    } else if d == 2 {
        '2'
    } else if d == 3 {
        '3'
    } else if d == 4 {
        '4'
    } else if d == 5 {
        '5'
    } else if d == 6 {
        '6'
    } else if d == 7 {
        '7'
    } else if d == 8 {
        '8'
    } else if d == 9 {
        '9'
    } else if d == 10 {
        'a'
    } else if d == 11 {
        'b'
    } else if d == 12 {
        'c'
    } else if d == 13 {
        'd'
    } else if d == 14 {
        'e'
    } else {
        'f'
    }
}

/// The digit for `d`.
pub fn digit(d: u8) -> (r: char)
    requires
        d < 16,
    ensures
        r == digit_char(d as int),
{
    match d {
        0 => '0',
        1 => '1',
        2 => '2',
        3 => '3',
        4 => '4',
        5 => '5',
        6 => '6',
        7 => '7',
        8 => '8',
        9 => '9',
        10 => 'a',
        11 => 'b',
        12 => 'c',
        13 => 'd',
        14 => 'e',
        _ => 'f',
    }
}

/// What a hexadecimal digit of either case stands for.
pub open spec fn digit_value(c: char) -> Option<int> {
    if '0' <= c && c <= '9' {
        Some(c as int - '0' as int)
    } else if 'a' <= c && c <= 'f' {
        Some(c as int - 'a' as int + 10)
    } else if 'A' <= c && c <= 'F' {
        Some(c as int - 'A' as int + 10)
    } else {
        None
    }
}

/// What a hexadecimal digit of either case stands for.
pub fn value_of(c: char) -> (r: Option<u8>)
    ensures
        match r {
            Some(v) => digit_value(c) == Some(v as int) && v < 16,
            None => digit_value(c) is None,
        },
{
    let n: u32 = c as u32;
    if 48 <= n && n <= 57 {
        Some((n - 48) as u8)
    } else if 97 <= n && n <= 102 {
        Some((n - 97 + 10) as u8)
    } else if 65 <= n && n <= 70 {
        Some((n - 65 + 10) as u8)
    } else {
        None
    }
}

/// `n` in decimal.
pub open spec fn decimal(n: nat) -> Seq<char>
    decreases n,
{
    if n < 10 {
        seq![digit_char(n as int)]
    } else {
        decimal(n / 10).push(digit_char((n % 10) as int))
    }
}

/// `n` in decimal, with its sign where it is negative.
pub open spec fn decimal_int(n: int) -> Seq<char> {
    if n < 0 {
        seq!['-'] + decimal((-n) as nat)
    } else {
        decimal(n as nat)
    }
}

/// Adds `n` in decimal to `out`.
pub fn push_decimal(out: &mut String, n: u64)
    ensures
        final(out)@ == old(out)@ + decimal(n as nat),
    decreases n,
{
    if n >= 10 {
        push_decimal(out, n / 10);
    }
    out.push(digit((n % 10) as u8));
    proof {
        assert(final(out)@ =~= old(out)@ + decimal(n as nat));
    }
}

/// Adds `n` in decimal to `out`.
pub fn push_signed(out: &mut String, n: i64)
    ensures
        final(out)@ == old(out)@ + decimal_int(n as int),
{
    if n < 0 {
        out.push('-');
        let m: u64 = if n == i64::MIN {
            9_223_372_036_854_775_808
        } else {
            (-n) as u64
        };
        push_decimal(out, m);
        proof {
            assert(final(out)@ =~= old(out)@ + decimal_int(n as int));
        }
    } else {
        push_decimal(out, n as u64);
    }
}

/// The number that a text of decimal digits stands for.
pub open spec fn digits_value(s: Seq<char>) -> Option<nat>
    decreases s.len(),
{
    if s.len() == 0 {
        Some(0)
    } else {
        match (digits_value(s.drop_last()), digit_value(s.last())) {
            (Some(n), Some(d)) => if d < 10 {
                Some((10 * n + d) as nat)
            } else {
                None
            },
            _ => None,
        }
    }
}

/// The number that a text stands for: decimal digits, after a plus sign or
/// none.
pub open spec fn parsed_nat(s: Seq<char>) -> Option<nat> {
    if s.len() == 0 {
        None
    } else if s[0] == '+' && s.len() > 1 {
        digits_value(s.drop_first())
    } else if s[0] == '+' {
        None
    } else {
        digits_value(s)
    }
}

/// The number that a text stands for: decimal digits, after a sign or none.
pub open spec fn parsed_int(s: Seq<char>) -> Option<int> {
    if s.len() > 1 && s[0] == '-' {
        match digits_value(s.drop_first()) {
            Some(n) => Some(-(n as int)),
            None => None,
        }
    } else {
        match parsed_nat(s) {
            Some(n) => Some(n as int),
            None => None,
        }
    }
}

/// Digits in front of digits: the value never falls.
proof fn lemma_digits_prefix(s: Seq<char>, i: int)
    requires
        0 <= i <= s.len(),
        digits_value(s) is Some,
    ensures
        digits_value(s.take(i)) is Some,
        digits_value(s.take(i))->0 <= digits_value(s)->0,
    decreases s.len(),
{
    if i == s.len() {
        assert(s.take(i) =~= s);
    } else {
        lemma_digits_prefix(s.drop_last(), i);
        assert(s.drop_last().take(i) =~= s.take(i));
    }
}

/// Reads decimal digits from `cs[from..]`; `None` also where the number does
/// not fit.
fn parse_digits(cs: &[char], from: usize) -> (r: Option<u64>)
    requires
        from <= cs.len(),
    ensures
        match r {
            Some(n) => digits_value(cs@.skip(from as int)) == Some(n as nat),
            None => match digits_value(cs@.skip(from as int)) {
                Some(n) => n > u64::MAX,
                None => true,
            },
        },
{
    let ghost s = cs@.skip(from as int);
    let mut n: u64 = 0;
    let mut i: usize = from;
    while i < cs.len()
        invariant
            from <= i <= cs.len(),
            s == cs@.skip(from as int),
            digits_value(s.take(i - from)) == Some(n as nat),
        decreases cs.len() - i,
    {
        proof {
            assert(s.take(i + 1 - from).drop_last() =~= s.take(i - from));
            assert(s.take(i + 1 - from).last() == cs@[i as int]);
            if digits_value(s) is Some {
                lemma_digits_prefix(s, i + 1 - from);
            }
        }
        match value_of(cs[i]) {
            Some(d) => {
                if d >= 10 {
                    return None;
                }
                let wide: u128 = (n as u128) * 10 + (d as u128);
                if wide > u64::MAX as u128 {
                    return None;
                }
                n = wide as u64;
            },
            None => {
                return None;
            },
        }
        i = i + 1;
    }
    proof {
        assert(s.take(cs@.len() - from) =~= s);
    }
    Some(n)
}

/// Reads an unsigned number that is at most `max`.
pub fn parse_unsigned(cs: &[char], max: u64) -> (r: Option<u64>)
    ensures
        match parsed_nat(cs@) {
            Some(n) => if n <= max {
                r == Some(n as u64)
            } else {
                r is None
            },
            None => r is None,
        },
{
    if cs.len() == 0 {
        return None;
    }
    let from: usize = if cs[0] == '+' {
        1
    } else {
        0
    };
    if from == cs.len() {
        return None;
    }
    proof {
        assert(cs@.skip(0) =~= cs@);
        assert(cs@.skip(1) =~= cs@.drop_first());
    }
    match parse_digits(cs, from) {
        Some(n) => if n <= max {
            Some(n)
        } else {
            None
        },
        None => None,
    }
}

/// Reads a signed number of 64 bits.
pub fn parse_signed(cs: &[char]) -> (r: Option<i64>)
    ensures
        match parsed_int(cs@) {
            Some(n) => if i64::MIN <= n <= i64::MAX {
                r == Some(n as i64)
            } else {
                r is None
            },
            None => r is None,
        },
{
    if cs.len() > 1 && cs[0] == '-' {
        proof {
            assert(cs@.skip(1) =~= cs@.drop_first());
        }
        return match parse_digits(cs, 1) {
            Some(n) => if n <= 9_223_372_036_854_775_807 {
                Some(-(n as i64))
            } else if n == 9_223_372_036_854_775_808 {
                Some(i64::MIN)
            } else {
                None
            },
            None => None,
        };
    }
    match parse_unsigned(cs, 9_223_372_036_854_775_807) {
        Some(n) => Some(n as i64),
        None => None,
    }
}

/// A number written in decimal reads back as itself.
pub proof fn law_decimal_round_trip(n: nat)
    ensures
        decimal(n).len() > 0,
        digits_value(decimal(n)) == Some(n),
        parsed_nat(decimal(n)) == Some(n),
        digit_value(decimal(n)[0]) is Some,
    decreases n,
{
    reveal_with_fuel(digits_value, 2);
    if n < 10 {
        assert(decimal(n).drop_last() =~= Seq::<char>::empty());
    } else {
        law_decimal_round_trip(n / 10);
        assert(decimal(n).drop_last() =~= decimal(n / 10));
        assert(decimal(n)[0] == decimal(n / 10)[0]);
    }
}

/// A signed number written in decimal reads back as itself.
pub proof fn law_signed_round_trip(n: int)
    ensures
        parsed_int(decimal_int(n)) == Some(n),
{
    if n < 0 {
        law_decimal_round_trip((-n) as nat);
        assert(decimal_int(n).drop_first() =~= decimal((-n) as nat));
    } else {
        law_decimal_round_trip(n as nat);
    }
}

/// The two hexadecimal digits of an octet.
pub open spec fn hex_octet(b: u8) -> Seq<char> {
    seq![digit_char(b as int / 16), digit_char(b as int % 16)]
}

/// Octets in hexadecimal, in lower case.
pub open spec fn hex(s: Seq<u8>) -> Seq<char>
    decreases s.len(),
{
    if s.len() == 0 {
        Seq::empty()
    } else {
        hex(s.drop_last()) + hex_octet(s.last())
    }
}

/// Adds octets in hexadecimal to `out`.
pub fn push_hex(out: &mut String, b: &[u8])
    ensures
        final(out)@ == old(out)@ + hex(b@),
{
    let ghost before = out@;
    let mut i: usize = 0;
    proof {
        assert(b@.take(0) =~= Seq::<u8>::empty());
        assert(before + hex(b@.take(0)) =~= before);
    }
    while i < b.len()
        invariant
            i <= b.len(),
            out@ == before + hex(b@.take(i as int)),
        decreases b.len() - i,
    {
        let x: u8 = b[i];
        out.push(digit(x / 16));
        out.push(digit(x % 16));
        i = i + 1;
        proof {
            assert(b@.take(i as int).drop_last() =~= b@.take(i - 1));
            assert(out@ =~= before + hex(b@.take(i as int)));
        }
    }
    proof {
        assert(b@.take(b@.len() as int) =~= b@);
    }
}

/// The octets that a text of hexadecimal digits stands for, two digits each.
pub open spec fn unhex(s: Seq<char>) -> Option<Seq<u8>>
    decreases s.len(),
{
    if s.len() == 0 {
        Some(Seq::empty())
    } else if s.len() == 1 {
        None
    } else {
        match (
            unhex(s.take(s.len() - 2)),
            digit_value(s[s.len() - 2]),
            digit_value(s[s.len() - 1]),
        ) {
            (Some(v), Some(h), Some(l)) => Some(v.push((16 * h + l) as u8)),
            _ => None,
        }
    }
}

/// What a text of digits stands for, its first `i` characters do too.
proof fn lemma_unhex_prefix(s: Seq<char>, i: int)
    requires
        0 <= i <= s.len(),
        (s.len() - i) % 2 == 0,
        unhex(s) is Some,
    ensures
        unhex(s.take(i)) is Some,
    decreases s.len(),
{
    if i == s.len() {
        assert(s.take(i) =~= s);
    } else {
        lemma_unhex_prefix(s.take(s.len() - 2), i);
        assert(s.take(s.len() - 2).take(i) =~= s.take(i));
    }
}

/// Only texts of even length stand for octets.
proof fn lemma_unhex_even(s: Seq<char>)
    ensures
        unhex(s) is Some ==> s.len() % 2 == 0 && unhex(s)->0.len() == s.len() / 2,
    decreases s.len(),
{
    if s.len() >= 2 {
        lemma_unhex_even(s.take(s.len() - 2));
    }
}

/// Reads octets from hexadecimal.
#[verifier::spinoff_prover]
#[verifier::rlimit(60)]
pub fn parse_hex(cs: &[char]) -> (r: Option<Vec<u8>>)
    ensures
        match r {
            Some(v) => unhex(cs@) == Some(v@),
            None => unhex(cs@) is None,
        },
{
    proof {
        lemma_unhex_even(cs@);
    }
    if cs.len() % 2 != 0 {
        return None;
    }
    let mut out: Vec<u8> = Vec::new();
    let mut i: usize = 0;
    proof {
        assert(cs@.take(0) =~= Seq::<char>::empty());
    }
    while i < cs.len()
        invariant
            i <= cs.len(),
            i % 2 == 0,
            cs.len() % 2 == 0,
            unhex(cs@.take(i as int)) == Some(out@),
        decreases cs.len() - i,
    {
        proof {
            let t = cs@.take(i + 2);
            assert(t.take(t.len() - 2) =~= cs@.take(i as int));
            assert(t[t.len() - 2] == cs@[i as int]);
            assert(t[t.len() - 1] == cs@[i + 1]);
            if unhex(cs@) is Some {
                lemma_unhex_prefix(cs@, i + 2);
            }
        }
        match (value_of(cs[i]), value_of(cs[i + 1])) {
            (Some(h), Some(l)) => {
                out.push(16 * h + l);
            },
            _ => {
                return None;
            },
        }
        i = i + 2;
    }
    proof {
        assert(cs@.take(cs@.len() as int) =~= cs@);
    }
    Some(out)
}

/// Octets written in hexadecimal read back as themselves.
pub proof fn law_hex_round_trip(s: Seq<u8>)
    ensures
        hex(s).len() == 2 * s.len(),
        unhex(hex(s)) == Some(s),
    decreases s.len(),
{
    if s.len() > 0 {
        law_hex_round_trip(s.drop_last());
        let h = hex(s);
        assert(h.take(h.len() - 2) =~= hex(s.drop_last()));
        let b = s.last();
        assert(digit_value(digit_char(b as int / 16)) == Some(b as int / 16));
        assert(digit_value(digit_char(b as int % 16)) == Some(b as int % 16));
        assert(s.drop_last().push(b) =~= s);
    }
}

/// A digit behind a number counts ten times less than what stands in front.
pub proof fn law_digit_is_added(s: Seq<char>, c: char)
    ensures
        digits_value(s.push(c)) == match (digits_value(s), c) {
            (Some(n), x) => if '0' <= x && x <= '9' {
                Some((10 * n + (x as int - '0' as int)) as nat)
            } else {
                None
            },
            (None, _) => None,
        },
{
    assert(s.push(c).drop_last() =~= s);
}

/// A sign in front of a number: a plus sign does not count, a minus sign makes it
/// negative, and a sign alone is no number.
pub proof fn law_sign_in_front(s: Seq<char>)
    requires
        s.len() > 0,
    ensures
        parsed_nat(seq!['+'] + s) == digits_value(s),
        parsed_nat(seq!['+']) is None,
        parsed_nat(Seq::empty()) is None,
        digits_value(s) matches Some(n) ==> parsed_int(seq!['-'] + s) == Some(-(n as int)),
        digits_value(s) is None ==> parsed_int(seq!['-'] + s) is None,
{
    assert((seq!['+'] + s)[0] == '+' && (seq!['+'] + s).drop_first() =~= s);
    assert((seq!['-'] + s)[0] == '-' && (seq!['-'] + s).drop_first() =~= s);
}

/// Digits of either case stand for the same, and no other character stands for
/// anything.
pub proof fn law_hexadecimal_digits(d: int, c: char)
    requires
        0 <= d < 16,
    ensures
        digit_value(digit_char(d)) == Some(d),
        digit_value(c) matches Some(v) ==> 0 <= v < 16,
        'A' <= c && c <= 'F' ==> digit_value(c) == digit_value((c as u32 + 32) as char),
        digit_value(c) is Some <==> (('0' <= c && c <= '9') || ('a' <= c && c <= 'f') || ('A' <= c
            && c <= 'F')),
{
}

/// Two digits behind a text in hexadecimal stand for one more octet; a single one
/// is none.
pub proof fn law_two_digits_are_an_octet(s: Seq<char>, h: char, l: char)
    ensures
        unhex(s.push(h).push(l)) == match (unhex(s), digit_value(h), digit_value(l)) {
            (Some(v), Some(x), Some(y)) => Some(v.push((16 * x + y) as u8)),
            _ => None,
        },
        unhex(seq![h]) is None,
{
    let t = s.push(h).push(l);
    assert(t.take(t.len() - 2) =~= s);
    assert(t[t.len() - 2] == h && t[t.len() - 1] == l);
}

} // verus!
