//! Restrictions in access lists: attribute flags, policies and time spans.

use crate::acl::parse::{past_separators, past_word, word};
use crate::acl::Restrictions;
use crate::num::{digit_value, parse_unsigned, parsed_nat, value_of};
use crate::store::{
    KDB_DISALLOW_ALL_TIX, KDB_DISALLOW_DUP_SKEY, KDB_DISALLOW_FORWARDABLE, KDB_DISALLOW_POSTDATED,
    KDB_DISALLOW_PROXIABLE, KDB_DISALLOW_RENEWABLE, KDB_DISALLOW_SVR, KDB_DISALLOW_TGT_BASED,
    KDB_LOCKDOWN_KEYS, KDB_NEW_PRINC, KDB_NO_AUTH_DATA_REQUIRED, KDB_OK_AS_DELEGATE,
    KDB_OK_TO_AUTH_AS_DELEGATE, KDB_PWCHANGE_SERVICE, KDB_REQUIRES_HW_AUTH, KDB_REQUIRES_PRE_AUTH,
    KDB_REQUIRES_PWCHANGE, KDB_SUPPORT_DESMD5,
};
use crate::text::{chars_of, range_string, str_eq, string_of, views};
use vstd::prelude::*;
use vstd::string::*;

verus! {

/// The attribute that a name stands for, and whether the name says the
/// opposite of it.
pub open spec fn named_flag(s: Seq<char>) -> Option<(u32, bool)> {
    if s == "allow_postdated"@ {
        Some((KDB_DISALLOW_POSTDATED, true))
    } else if s == "postdateable"@ {
        Some((KDB_DISALLOW_POSTDATED, true))
    } else if s == "disallow_postdated"@ {
        Some((KDB_DISALLOW_POSTDATED, false))
    } else if s == "allow_forwardable"@ {
        Some((KDB_DISALLOW_FORWARDABLE, true))
    } else if s == "forwardable"@ {
        Some((KDB_DISALLOW_FORWARDABLE, true))
    } else if s == "disallow_forwardable"@ {
        Some((KDB_DISALLOW_FORWARDABLE, false))
    } else if s == "allow_tgs_req"@ {
        Some((KDB_DISALLOW_TGT_BASED, true))
    } else if s == "tgt_based"@ {
        Some((KDB_DISALLOW_TGT_BASED, true))
    } else if s == "disallow_tgt_based"@ {
        Some((KDB_DISALLOW_TGT_BASED, false))
    } else if s == "allow_renewable"@ {
        Some((KDB_DISALLOW_RENEWABLE, true))
    } else if s == "renewable"@ {
        Some((KDB_DISALLOW_RENEWABLE, true))
    } else if s == "disallow_renewable"@ {
        Some((KDB_DISALLOW_RENEWABLE, false))
    } else if s == "allow_proxiable"@ {
        Some((KDB_DISALLOW_PROXIABLE, true))
    } else if s == "proxiable"@ {
        Some((KDB_DISALLOW_PROXIABLE, true))
    } else if s == "disallow_proxiable"@ {
        Some((KDB_DISALLOW_PROXIABLE, false))
    } else if s == "allow_dup_skey"@ {
        Some((KDB_DISALLOW_DUP_SKEY, true))
    } else if s == "dup_skey"@ {
        Some((KDB_DISALLOW_DUP_SKEY, true))
    } else if s == "disallow_dup_skey"@ {
        Some((KDB_DISALLOW_DUP_SKEY, false))
    } else if s == "allow_tickets"@ {
        Some((KDB_DISALLOW_ALL_TIX, true))
    } else if s == "allow_tix"@ {
        Some((KDB_DISALLOW_ALL_TIX, true))
    } else if s == "disallow_all_tix"@ {
        Some((KDB_DISALLOW_ALL_TIX, false))
    } else if s == "preauth"@ {
        Some((KDB_REQUIRES_PRE_AUTH, false))
    } else if s == "requires_pre_auth"@ {
        Some((KDB_REQUIRES_PRE_AUTH, false))
    } else if s == "requires_preauth"@ {
        Some((KDB_REQUIRES_PRE_AUTH, false))
    } else if s == "hwauth"@ {
        Some((KDB_REQUIRES_HW_AUTH, false))
    } else if s == "requires_hw_auth"@ {
        Some((KDB_REQUIRES_HW_AUTH, false))
    } else if s == "requires_hwauth"@ {
        Some((KDB_REQUIRES_HW_AUTH, false))
    } else if s == "needchange"@ {
        Some((KDB_REQUIRES_PWCHANGE, false))
    } else if s == "pwchange"@ {
        Some((KDB_REQUIRES_PWCHANGE, false))
    } else if s == "requires_pwchange"@ {
        Some((KDB_REQUIRES_PWCHANGE, false))
    } else if s == "allow_svr"@ {
        Some((KDB_DISALLOW_SVR, true))
    } else if s == "service"@ {
        Some((KDB_DISALLOW_SVR, true))
    } else if s == "disallow_svr"@ {
        Some((KDB_DISALLOW_SVR, false))
    } else if s == "password_changing_service"@ {
        Some((KDB_PWCHANGE_SERVICE, false))
    } else if s == "pwchange_service"@ {
        Some((KDB_PWCHANGE_SERVICE, false))
    } else if s == "pwservice"@ {
        Some((KDB_PWCHANGE_SERVICE, false))
    } else if s == "md5"@ {
        Some((KDB_SUPPORT_DESMD5, false))
    } else if s == "support_desmd5"@ {
        Some((KDB_SUPPORT_DESMD5, false))
    } else if s == "new_princ"@ {
        Some((KDB_NEW_PRINC, false))
    } else if s == "ok_as_delegate"@ {
        Some((KDB_OK_AS_DELEGATE, false))
    } else if s == "ok_to_auth_as_delegate"@ {
        Some((KDB_OK_TO_AUTH_AS_DELEGATE, false))
    } else if s == "no_auth_data_required"@ {
        Some((KDB_NO_AUTH_DATA_REQUIRED, false))
    } else if s == "lockdown_keys"@ {
        Some((KDB_LOCKDOWN_KEYS, false))
    } else {
        None
    }
}

/// The attribute that a name stands for.
pub fn find_flag(s: &str) -> (r: Option<(u32, bool)>)
    ensures
        r == named_flag(s@),
{
    if str_eq(s, "allow_postdated") {
        Some((KDB_DISALLOW_POSTDATED, true))
    } else if str_eq(s, "postdateable") {
        Some((KDB_DISALLOW_POSTDATED, true))
    } else if str_eq(s, "disallow_postdated") {
        Some((KDB_DISALLOW_POSTDATED, false))
    } else if str_eq(s, "allow_forwardable") {
        Some((KDB_DISALLOW_FORWARDABLE, true))
    } else if str_eq(s, "forwardable") {
        Some((KDB_DISALLOW_FORWARDABLE, true))
    } else if str_eq(s, "disallow_forwardable") {
        Some((KDB_DISALLOW_FORWARDABLE, false))
    } else if str_eq(s, "allow_tgs_req") {
        Some((KDB_DISALLOW_TGT_BASED, true))
    } else if str_eq(s, "tgt_based") {
        Some((KDB_DISALLOW_TGT_BASED, true))
    } else if str_eq(s, "disallow_tgt_based") {
        Some((KDB_DISALLOW_TGT_BASED, false))
    } else if str_eq(s, "allow_renewable") {
        Some((KDB_DISALLOW_RENEWABLE, true))
    } else if str_eq(s, "renewable") {
        Some((KDB_DISALLOW_RENEWABLE, true))
    } else if str_eq(s, "disallow_renewable") {
        Some((KDB_DISALLOW_RENEWABLE, false))
    } else if str_eq(s, "allow_proxiable") {
        Some((KDB_DISALLOW_PROXIABLE, true))
    } else if str_eq(s, "proxiable") {
        Some((KDB_DISALLOW_PROXIABLE, true))
    } else if str_eq(s, "disallow_proxiable") {
        Some((KDB_DISALLOW_PROXIABLE, false))
    } else if str_eq(s, "allow_dup_skey") {
        Some((KDB_DISALLOW_DUP_SKEY, true))
    } else if str_eq(s, "dup_skey") {
        Some((KDB_DISALLOW_DUP_SKEY, true))
    } else if str_eq(s, "disallow_dup_skey") {
        Some((KDB_DISALLOW_DUP_SKEY, false))
    } else if str_eq(s, "allow_tickets") {
        Some((KDB_DISALLOW_ALL_TIX, true))
    } else if str_eq(s, "allow_tix") {
        Some((KDB_DISALLOW_ALL_TIX, true))
    } else if str_eq(s, "disallow_all_tix") {
        Some((KDB_DISALLOW_ALL_TIX, false))
    } else if str_eq(s, "preauth") {
        Some((KDB_REQUIRES_PRE_AUTH, false))
    } else if str_eq(s, "requires_pre_auth") {
        Some((KDB_REQUIRES_PRE_AUTH, false))
    } else if str_eq(s, "requires_preauth") {
        Some((KDB_REQUIRES_PRE_AUTH, false))
    } else if str_eq(s, "hwauth") {
        Some((KDB_REQUIRES_HW_AUTH, false))
    } else if str_eq(s, "requires_hw_auth") {
        Some((KDB_REQUIRES_HW_AUTH, false))
    } else if str_eq(s, "requires_hwauth") {
        Some((KDB_REQUIRES_HW_AUTH, false))
    } else if str_eq(s, "needchange") {
        Some((KDB_REQUIRES_PWCHANGE, false))
    } else if str_eq(s, "pwchange") {
        Some((KDB_REQUIRES_PWCHANGE, false))
    } else if str_eq(s, "requires_pwchange") {
        Some((KDB_REQUIRES_PWCHANGE, false))
    } else if str_eq(s, "allow_svr") {
        Some((KDB_DISALLOW_SVR, true))
    } else if str_eq(s, "service") {
        Some((KDB_DISALLOW_SVR, true))
    } else if str_eq(s, "disallow_svr") {
        Some((KDB_DISALLOW_SVR, false))
    } else if str_eq(s, "password_changing_service") {
        Some((KDB_PWCHANGE_SERVICE, false))
    } else if str_eq(s, "pwchange_service") {
        Some((KDB_PWCHANGE_SERVICE, false))
    } else if str_eq(s, "pwservice") {
        Some((KDB_PWCHANGE_SERVICE, false))
    } else if str_eq(s, "md5") {
        Some((KDB_SUPPORT_DESMD5, false))
    } else if str_eq(s, "support_desmd5") {
        Some((KDB_SUPPORT_DESMD5, false))
    } else if str_eq(s, "new_princ") {
        Some((KDB_NEW_PRINC, false))
    } else if str_eq(s, "ok_as_delegate") {
        Some((KDB_OK_AS_DELEGATE, false))
    } else if str_eq(s, "ok_to_auth_as_delegate") {
        Some((KDB_OK_TO_AUTH_AS_DELEGATE, false))
    } else if str_eq(s, "no_auth_data_required") {
        Some((KDB_NO_AUTH_DATA_REQUIRED, false))
    } else if str_eq(s, "lockdown_keys") {
        Some((KDB_LOCKDOWN_KEYS, false))
    } else {
        None
    }
}

/// A letter in small, all else as it is.
pub open spec fn lower(c: char) -> char {
    if 'A' <= c && c <= 'Z' {
        ((c as u32) + 32) as char
    } else {
        c
    }
}

/// A character as flags are spelled: small, with `_` for `-`.
pub open spec fn flag_char(c: char) -> char {
    if c == '-' {
        '_'
    } else {
        lower(c)
    }
}

/// A letter in small.
pub fn to_lower(c: char) -> (r: char)
    ensures
        r == lower(c),
{
    match c {
        'A' => 'a',
        'B' => 'b',
        'C' => 'c',
        'D' => 'd',
        'E' => 'e',
        'F' => 'f',
        'G' => 'g',
        'H' => 'h',
        'I' => 'i',
        'J' => 'j',
        'K' => 'k',
        'L' => 'l',
        'M' => 'm',
        'N' => 'n',
        'O' => 'o',
        'P' => 'p',
        'Q' => 'q',
        'R' => 'r',
        'S' => 's',
        'T' => 't',
        'U' => 'u',
        'V' => 'v',
        'W' => 'w',
        'X' => 'x',
        'Y' => 'y',
        'Z' => 'z',
        _ => c,
    }
}

/// A character as flags are spelled.
fn to_flag_char(c: char) -> (r: char)
    ensures
        r == flag_char(c),
{
    if c == '-' {
        '_'
    } else {
        to_lower(c)
    }
}

/// A text as flags are spelled.
pub open spec fn flag_text(s: Seq<char>) -> Seq<char> {
    s.map_values(|c: char| flag_char(c))
}

/// How many hexadecimal digits `s` starts with.
pub open spec fn hex_len(s: Seq<char>) -> int
    decreases s.len(),
{
    if s.len() == 0 || digit_value(s[0]) is None {
        0
    } else {
        1 + hex_len(s.drop_first())
    }
}

/// The number that hexadecimal digits stand for.
pub open spec fn hex_number(s: Seq<char>) -> nat
    decreases s.len(),
{
    if s.len() == 0 {
        0
    } else {
        (16 * hex_number(s.drop_last()) + digit_value(s.last())->0) as nat
    }
}

/// The number in front of `s`, in hexadecimal; 0 where there is none or it
/// does not fit in 32 bits.
pub open spec fn hex_prefix(s: Seq<char>) -> u32 {
    let n = hex_number(s.take(hex_len(s)));
    if n <= u32::MAX {
        n as u32
    } else {
        0
    }
}

/// The hexadecimal digits in front are as many as there are.
proof fn lemma_hex_len(s: Seq<char>)
    ensures
        0 <= hex_len(s) <= s.len(),
        forall|k: int| 0 <= k < hex_len(s) ==> digit_value(#[trigger] s[k]) is Some,
        hex_len(s) < s.len() ==> digit_value(s[hex_len(s)]) is None,
    decreases s.len(),
{
    if s.len() > 0 && digit_value(s[0]) is Some {
        let t = s.drop_first();
        lemma_hex_len(t);
        assert forall|k: int| 0 <= k < hex_len(s) implies digit_value(#[trigger] s[k]) is Some by {
            if k > 0 {
                assert(t[k - 1] == s[k]);
            }
        }
        if hex_len(s) < s.len() {
            assert(t[hex_len(t)] == s[hex_len(s)]);
        }
    }
}

/// A number never falls as digits are added.
proof fn lemma_hex_grows(s: Seq<char>, i: int)
    requires
        0 <= i <= s.len(),
        forall|k: int| 0 <= k < s.len() ==> digit_value(#[trigger] s[k]) is Some,
    ensures
        hex_number(s.take(i)) <= hex_number(s),
    decreases s.len(),
{
    if i == s.len() {
        assert(s.take(i) =~= s);
    } else {
        let t = s.drop_last();
        assert forall|k: int| 0 <= k < t.len() implies digit_value(#[trigger] t[k]) is Some by {
            assert(s[k] == t[k]);
        }
        lemma_hex_grows(t, i);
        assert(t.take(i) =~= s.take(i));
        assert(digit_value(s.last()) is Some);
    }
}

/// The number in front of `cs[from..]`, in hexadecimal.
fn parse_hex_prefix(cs: &[char], from: usize) -> (r: u32)
    requires
        from <= cs.len(),
    ensures
        r == hex_prefix(cs@.skip(from as int)),
{
    let ghost s = cs@.skip(from as int);
    proof {
        lemma_hex_len(s);
        assert(s.take(0) =~= Seq::<char>::empty());
    }
    let mut n: u32 = 0;
    let mut i: usize = from;
    while i < cs.len()
        invariant
            from <= i <= cs.len(),
            s == cs@.skip(from as int),
            i - from <= hex_len(s) <= s.len(),
            forall|k: int| 0 <= k < hex_len(s) ==> digit_value(#[trigger] s[k]) is Some,
            hex_len(s) < s.len() ==> digit_value(s[hex_len(s)]) is None,
            n == hex_number(s.take(i - from)),
        decreases cs.len() - i,
    {
        proof {
            assert(s[i - from] == cs@[i as int]);
        }
        match value_of(cs[i]) {
            None => {
                proof {
                    assert(hex_len(s) == i - from) by {
                        if hex_len(s) > i - from {
                            assert(digit_value(s[i - from]) is Some);
                        }
                    }
                }
                return n;
            },
            Some(d) => {
                let wide: u64 = (n as u64) * 16 + (d as u64);
                proof {
                    assert(hex_len(s) > i - from);
                    let t = s.take(i + 1 - from);
                    assert(t.drop_last() =~= s.take(i - from));
                    assert(t.last() == cs@[i as int]);
                    assert(wide == hex_number(t));
                    let all = s.take(hex_len(s));
                    assert forall|k: int| 0 <= k < all.len() implies digit_value(
                        #[trigger] all[k],
                    ) is Some by {
                        assert(all[k] == s[k]);
                    }
                    lemma_hex_grows(all, i + 1 - from);
                    assert(all.take(i + 1 - from) =~= t);
                }
                if wide > 0xffff_ffff {
                    return 0;
                }
                n = wide as u32;
            },
        }
        i = i + 1;
    }
    proof {
        assert(s.len() == i - from);
        assert(s.take(hex_len(s)) =~= s.take(i - from));
    }
    n
}

/// What a flag asks for: the attributes, and whether they are cleared.
pub open spec fn flag_spec(spec: Seq<char>) -> Option<(u32, bool)> {
    let neg = spec.len() > 0 && spec[0] == '-';
    let signed = neg || (spec.len() > 0 && spec[0] == '+');
    let s = flag_text(if signed {
        spec.drop_first()
    } else {
        spec
    });
    match named_flag(s) {
        Some((f, invert)) => Some((f, invert != neg)),
        None => if s.len() >= 2 && s[0] == '0' && s[1] == 'x' {
            Some((hex_prefix(s.skip(2)), neg))
        } else {
            None
        },
    }
}

/// Reads a flag.
pub fn parse_flag(spec: &[char]) -> (r: Option<(u32, bool)>)
    ensures
        r == flag_spec(spec@),
{
    let neg: bool = spec.len() > 0 && spec[0] == '-';
    let from: usize = if neg || (spec.len() > 0 && spec[0] == '+') {
        1
    } else {
        0
    };
    let ghost body = spec@.skip(from as int);
    proof {
        if from == 1 {
            assert(body =~= spec@.drop_first());
        } else {
            assert(body =~= spec@);
        }
    }
    let mut s: Vec<char> = Vec::new();
    let mut i: usize = from;
    proof {
        assert(s@ =~= flag_text(body.take(0)));
    }
    while i < spec.len()
        invariant
            from <= i <= spec.len(),
            body == spec@.skip(from as int),
            s@ == flag_text(body.take(i - from)),
        decreases spec.len() - i,
    {
        s.push(to_flag_char(spec[i]));
        i = i + 1;
        proof {
            assert(s@ =~= flag_text(body.take(i - from)));
        }
    }
    proof {
        assert(body.take(body.len() as int) =~= body);
    }
    let text = string_of(s.as_slice());
    match find_flag(text.as_str()) {
        Some((f, invert)) => Some((f, invert != neg)),
        None => if s.len() >= 2 && s[0] == '0' && s[1] == 'x' {
            Some((parse_hex_prefix(s.as_slice(), 2), neg))
        } else {
            None
        },
    }
}

/// Seconds of a unit of time.
pub open spec fn unit_seconds(c: char) -> Option<u64> {
    match c {
        's' => Some(1u64),
        'S' => Some(1u64),
        'm' => Some(60u64),
        'M' => Some(60u64),
        'h' => Some(3600u64),
        'H' => Some(3600u64),
        'd' => Some(86400u64),
        'D' => Some(86400u64),
        'w' => Some(604800u64),
        'W' => Some(604800u64),
        _ => None,
    }
}

/// A product, or the greatest number where it does not fit.
pub open spec fn product(a: u64, b: u64) -> u64 {
    if a * b <= u64::MAX {
        (a * b) as u64
    } else {
        u64::MAX
    }
}

/// A product, or the greatest number where it does not fit.
fn times(a: u64, b: u64) -> (r: u64)
    ensures
        r == product(a, b),
{
    match a.checked_mul(b) {
        Some(x) => x,
        None => u64::MAX,
    }
}

/// A time span as it is read.
#[derive(Clone, Copy, Debug, PartialEq, Eq, Structural)]
pub struct Span {
    /// Seconds so far.
    pub total: u64,
    /// The number that is being read.
    pub num: u64,
    /// A digit was read.
    pub seen: bool,
    /// The last character was a unit.
    pub have_unit: bool,
}

/// `c` is a decimal digit.
pub open spec fn is_digit(c: char) -> bool {
    '0' <= c && c <= '9'
}

/// A time span read: numbers, each with its unit.
pub open spec fn span_of(s: Seq<char>) -> Option<Span>
    decreases s.len(),
{
    if s.len() == 0 {
        Some(Span { total: 0, num: 0, seen: false, have_unit: false })
    } else {
        match span_of(s.drop_last()) {
            None => None,
            Some(p) => {
                let c = s.last();
                if is_digit(c) {
                    Some(
                        Span {
                            total: p.total,
                            num: product(p.num, 10).saturating_add((c as int - '0' as int) as u64),
                            seen: true,
                            have_unit: false,
                        },
                    )
                } else {
                    match unit_seconds(c) {
                        Some(m) => Some(
                            Span {
                                total: p.total.saturating_add(product(p.num, m)),
                                num: 0,
                                seen: p.seen,
                                have_unit: true,
                            },
                        ),
                        None => None,
                    }
                }
            },
        }
    }
}

/// The seconds of a time span: a number of seconds, or numbers with units.
pub open spec fn delta(s: Seq<char>) -> Option<u64> {
    if parsed_nat(s) matches Some(n) && n <= u64::MAX {
        Some(parsed_nat(s)->0 as u64)
    } else {
        match span_of(s) {
            None => None,
            Some(p) => if !p.seen {
                None
            } else if p.have_unit {
                Some(p.total)
            } else if p.num != 0 {
                Some(p.total.saturating_add(p.num))
            } else {
                None
            },
        }
    }
}

/// A span that cannot be read stays so.
proof fn lemma_span_prefix(s: Seq<char>, i: int)
    requires
        0 <= i <= s.len(),
        span_of(s.take(i)) is None,
    ensures
        span_of(s) is None,
    decreases s.len() - i,
{
    if i < s.len() {
        assert(s.take(i + 1).drop_last() =~= s.take(i));
        lemma_span_prefix(s, i + 1);
    } else {
        assert(s.take(i) =~= s);
    }
}

/// Seconds of a unit of time.
fn seconds_of(c: char) -> (r: Option<u64>)
    ensures
        r == unit_seconds(c),
{
    match c {
        's' => Some(1),
        'S' => Some(1),
        'm' => Some(60),
        'M' => Some(60),
        'h' => Some(3600),
        'H' => Some(3600),
        'd' => Some(86400),
        'D' => Some(86400),
        'w' => Some(604800),
        'W' => Some(604800),
        _ => None,
    }
}

/// Reads a time span.
pub fn parse_deltat(cs: &[char]) -> (r: Option<u64>)
    ensures
        r == delta(cs@),
{
    match parse_unsigned(cs, u64::MAX) {
        Some(n) => {
            return Some(n);
        },
        None => {},
    }
    let mut p = Span { total: 0, num: 0, seen: false, have_unit: false };
    let mut i: usize = 0;
    proof {
        assert(cs@.take(0) =~= Seq::<char>::empty());
    }
    while i < cs.len()
        invariant
            i <= cs.len(),
            span_of(cs@.take(i as int)) == Some(p),
            !(parsed_nat(cs@) matches Some(n) && n <= u64::MAX),
        decreases cs.len() - i,
    {
        proof {
            assert(cs@.take(i + 1).drop_last() =~= cs@.take(i as int));
            assert(cs@.take(i + 1).last() == cs@[i as int]);
        }
        let c: char = cs[i];
        let d: u8 = match value_of(c) {
            Some(x) => x,
            None => 16,
        };
        if d < 10 {
            p = Span {
                total: p.total,
                num: times(p.num, 10).saturating_add(d as u64),
                seen: true,
                have_unit: false,
            };
        } else {
            match seconds_of(c) {
                Some(m) => {
                    p = Span {
                        total: p.total.saturating_add(times(p.num, m)),
                        num: 0,
                        seen: p.seen,
                        have_unit: true,
                    };
                },
                None => {
                    proof {
                        lemma_span_prefix(cs@, i + 1);
                    }
                    return None;
                },
            }
        }
        i = i + 1;
    }
    proof {
        assert(cs@.take(cs@.len() as int) =~= cs@);
    }
    if !p.seen {
        None
    } else if p.have_unit {
        Some(p.total)
    } else if p.num != 0 {
        Some(p.total.saturating_add(p.num))
    } else {
        None
    }
}

/// The words of `s`.
pub open spec fn words(s: Seq<char>) -> Seq<Seq<char>>
    decreases s.len(),
    via words_decreases
{
    let a = past_separators(s);
    if a.len() == 0 {
        Seq::empty()
    } else {
        seq![word(a)] + words(past_word(a))
    }
}

#[via_fn]
proof fn words_decreases(s: Seq<char>) {
    crate::acl::parse::lemma_word(s);
    let a = past_separators(s);
    crate::acl::parse::lemma_word(a);
    crate::acl::parse::lemma_past_separators(s);
}

/// Splits into words.
pub fn split_words(cs: &[char]) -> (r: Vec<String>)
    ensures
        views(r@) == words(cs@),
{
    let mut out: Vec<String> = Vec::new();
    let mut i: usize = 0;
    let n: usize = cs.len();
    proof {
        assert(cs@.subrange(0, n as int) =~= cs@);
        assert(views(out@) =~= Seq::<Seq<char>>::empty());
        assert(views(out@) + words(cs@) =~= words(cs@));
    }
    loop
        invariant
            i <= n,
            n == cs.len(),
            views(out@) + words(cs@.subrange(i as int, n as int)) == words(cs@),
        decreases n - i,
    {
        let a: usize = crate::acl::parse::skip_separators(cs, i, n);
        let ghost s = cs@.subrange(i as int, n as int);
        if a >= n {
            proof {
                assert(words(s) =~= Seq::<Seq<char>>::empty());
                assert(views(out@) + Seq::<Seq<char>>::empty() =~= views(out@));
            }
            return out;
        }
        let b: usize = crate::acl::parse::skip_word(cs, a, n);
        let ghost before = out@;
        out.push(range_string(cs, a, b));
        proof {
            let t = cs@.subrange(a as int, n as int);
            crate::acl::parse::lemma_past_separators(s);
            crate::acl::parse::lemma_word(t);
            assert(views(out@) =~= views(before).push(word(t)));
            assert(views(out@) + words(past_word(t)) =~= views(before) + (seq![word(t)] + words(
                past_word(t),
            )));
        }
        i = b;
    }
}

/// What restrictions say.
#[verifier::ext_equal]
pub struct RestrictionsView {
    /// The password policy is removed.
    pub clear_policy: bool,
    /// The password policy is set.
    pub policy: Option<Seq<char>>,
    /// Longest ticket life in seconds.
    pub max_life: Option<u64>,
    /// Longest renewable life in seconds.
    pub max_renewable_life: Option<u64>,
    /// Longest time to expiry in seconds.
    pub expire: Option<u64>,
    /// Longest time to password expiry in seconds.
    pub pwexpire: Option<u64>,
    /// Attributes that are set.
    pub require_attrs: u32,
    /// Attributes that may stay.
    pub forbid_attrs: u32,
}

impl View for Restrictions {
    type V = RestrictionsView;

    open spec fn view(&self) -> RestrictionsView {
        RestrictionsView {
            clear_policy: self.clear_policy,
            policy: match self.policy {
                Some(p) => Some(p@),
                None => None,
            },
            max_life: self.max_life,
            max_renewable_life: self.max_renewable_life,
            expire: self.expire,
            pwexpire: self.pwexpire,
            require_attrs: self.require_attrs,
            forbid_attrs: self.forbid_attrs,
        }
    }
}

/// No restrictions.
pub open spec fn unrestricted() -> RestrictionsView {
    RestrictionsView {
        clear_policy: false,
        policy: None,
        max_life: None,
        max_renewable_life: None,
        expire: None,
        pwexpire: None,
        require_attrs: 0,
        forbid_attrs: u32::MAX,
    }
}

/// Restrictions with a flag.
pub open spec fn with_flag(rs: RestrictionsView, f: (u32, bool)) -> RestrictionsView {
    if f.1 {
        RestrictionsView { forbid_attrs: rs.forbid_attrs & !f.0, ..rs }
    } else {
        RestrictionsView { require_attrs: rs.require_attrs | f.0, ..rs }
    }
}

/// Restrictions with a time span under the word `token`.
pub open spec fn with_span(rs: RestrictionsView, token: Seq<char>, d: u64) -> Option<
    RestrictionsView,
> {
    if token == "-expire"@ {
        Some(RestrictionsView { expire: Some(d), ..rs })
    } else if token == "-pwexpire"@ {
        Some(RestrictionsView { pwexpire: Some(d), ..rs })
    } else if token == "-maxlife"@ {
        Some(RestrictionsView { max_life: Some(d), ..rs })
    } else if token == "-maxrenewlife"@ {
        Some(RestrictionsView { max_renewable_life: Some(d), ..rs })
    } else {
        None
    }
}

/// Restrictions read from words `i` on.
pub open spec fn restricted(tokens: Seq<Seq<char>>, i: int, rs: RestrictionsView) -> Option<
    RestrictionsView,
>
    decreases tokens.len() - i,
{
    if i >= tokens.len() {
        Some(rs)
    } else if flag_spec(tokens[i]) is Some {
        restricted(tokens, i + 1, with_flag(rs, flag_spec(tokens[i])->0))
    } else if tokens[i] == "-clearpolicy"@ {
        restricted(tokens, i + 1, RestrictionsView { clear_policy: true, ..rs })
    } else if i + 1 >= tokens.len() {
        None
    } else if tokens[i] == "-policy"@ {
        if rs.policy is Some {
            None
        } else {
            restricted(tokens, i + 2, RestrictionsView { policy: Some(tokens[i + 1]), ..rs })
        }
    } else {
        match delta(tokens[i + 1]) {
            None => None,
            Some(d) => match with_span(rs, tokens[i], d) {
                None => None,
                Some(x) => restricted(tokens, i + 2, x),
            },
        }
    }
}

/// Restrictions that a text stands for.
pub open spec fn spec_restrictions(s: Seq<char>) -> Option<RestrictionsView> {
    restricted(words(s), 0, unrestricted())
}

/// Reads restrictions.
pub fn parse_restrictions(cs: &[char]) -> (r: Option<Restrictions>)
    ensures
        match spec_restrictions(cs@) {
            Some(v) => r matches Some(x) && x@ == v,
            None => r is None,
        },
{
    let tokens = split_words(cs);
    let ghost all = words(cs@);
    let mut rs = Restrictions::default();
    let mut i: usize = 0;
    proof {
        assert(rs@ =~= unrestricted());
    }
    while i < tokens.len()
        invariant
            i <= tokens.len(),
            all == views(tokens@),
            spec_restrictions(cs@) == restricted(all, i as int, rs@),
        decreases tokens.len() - i,
    {
        proof {
            assert(all[i as int] == tokens@[i as int]@);
        }
        let ghost before = rs@;
        let token = chars_of(tokens[i].as_str());
        match parse_flag(token.as_slice()) {
            Some((f, clears)) => {
                if clears {
                    rs.forbid_attrs = rs.forbid_attrs & !f;
                } else {
                    rs.require_attrs = rs.require_attrs | f;
                }
                proof {
                    assert(rs@ =~= with_flag(before, (f, clears)));
                }
                i = i + 1;
            },
            None => {
                if str_eq(tokens[i].as_str(), "-clearpolicy") {
                    rs.clear_policy = true;
                    proof {
                        assert(rs@ =~= (RestrictionsView { clear_policy: true, ..before }));
                    }
                    i = i + 1;
                } else {
                    if i + 1 >= tokens.len() {
                        return None;
                    }
                    proof {
                        assert(all[i + 1] == tokens@[i + 1]@);
                    }
                    if str_eq(tokens[i].as_str(), "-policy") {
                        if rs.policy.is_some() {
                            return None;
                        }
                        rs.policy = Some(tokens[i + 1].clone());
                        proof {
                            assert(rs@ =~= (RestrictionsView {
                                policy: Some(all[i + 1]),
                                ..before
                            }));
                        }
                    } else {
                        let arg = chars_of(tokens[i + 1].as_str());
                        let d: u64 = match parse_deltat(arg.as_slice()) {
                            Some(d) => d,
                            None => {
                                return None;
                            },
                        };
                        if str_eq(tokens[i].as_str(), "-expire") {
                            rs.expire = Some(d);
                        } else if str_eq(tokens[i].as_str(), "-pwexpire") {
                            rs.pwexpire = Some(d);
                        } else if str_eq(tokens[i].as_str(), "-maxlife") {
                            rs.max_life = Some(d);
                        } else if str_eq(tokens[i].as_str(), "-maxrenewlife") {
                            rs.max_renewable_life = Some(d);
                        } else {
                            return None;
                        }
                        proof {
                            assert(Some(rs@) =~= with_span(before, all[i as int], d));
                        }
                    }
                    i = i + 2;
                }
            },
        }
    }
    Some(rs)
}

/// A sign in front of a flag says what it does: `+` nothing, `-` the opposite;
/// capitals and small letters, and `-` and `_` inside it, are the same.
pub proof fn law_sign_turns_a_flag(s: Seq<char>, t: Seq<char>)
    requires
        s.len() > 0,
        s[0] != '-',
        s[0] != '+',
    ensures
        flag_spec(seq!['+'] + s) == flag_spec(s),
        flag_spec(s) is None <==> flag_spec(seq!['-'] + s) is None,
        flag_spec(s) matches Some(f) ==> flag_spec(seq!['-'] + s) == Some((f.0, !f.1)),
        t.len() == s.len() && t[0] != '-' && t[0] != '+' && (forall|i: int|
            0 <= i < s.len() ==> flag_char(#[trigger] t[i]) == flag_char(s[i])) ==> flag_spec(t)
            == flag_spec(s),
{
    assert((seq!['+'] + s).drop_first() =~= s);
    assert((seq!['-'] + s).drop_first() =~= s);
    assert((seq!['+'] + s)[0] == '+');
    assert((seq!['-'] + s)[0] == '-');
    if t.len() == s.len() && (forall|i: int|
        0 <= i < s.len() ==> flag_char(#[trigger] t[i]) == flag_char(s[i])) {
        assert forall|i: int| 0 <= i < s.len() implies flag_text(t)[i] == flag_text(s)[i] by {
            assert(flag_char(t[i]) == flag_char(s[i]));
        }
        assert(flag_text(t) =~= flag_text(s));
    }
}

/// A flag that is required is set, one that is not allowed is cleared, and no
/// other restriction changes with it.
pub proof fn law_flag_restricts(rs: RestrictionsView, f: u32, b: u32)
    ensures
        with_flag(rs, (f, false)).require_attrs & f == f,
        with_flag(rs, (f, false)).forbid_attrs == rs.forbid_attrs,
        b & f == 0 ==> with_flag(rs, (f, false)).require_attrs & b == rs.require_attrs & b,
        with_flag(rs, (f, true)).forbid_attrs & f == 0,
        with_flag(rs, (f, true)).require_attrs == rs.require_attrs,
        b & f == 0 ==> with_flag(rs, (f, true)).forbid_attrs & b == rs.forbid_attrs & b,
        with_flag(rs, (f, true)).max_life == rs.max_life,
        with_flag(rs, (f, true)).policy == rs.policy,
        with_flag(rs, (f, false)).max_life == rs.max_life,
        with_flag(rs, (f, false)).policy == rs.policy,
{
    let q = rs.require_attrs;
    let a = rs.forbid_attrs;
    assert({
        &&& (q | f) & f == f
        &&& b & f == 0 ==> (q | f) & b == q & b
        &&& (a & !f) & f == 0
        &&& b & f == 0 ==> (a & !f) & b == a & b
    }) by (bit_vector);
}

/// Each word that takes a time span sets its own limit and no other.
pub proof fn law_span_sets_its_limit(rs: RestrictionsView, d: u64)
    ensures
        with_span(rs, "-expire"@, d) == Some(RestrictionsView { expire: Some(d), ..rs }),
        with_span(rs, "-pwexpire"@, d) == Some(RestrictionsView { pwexpire: Some(d), ..rs }),
        with_span(rs, "-maxlife"@, d) == Some(RestrictionsView { max_life: Some(d), ..rs }),
        with_span(rs, "-maxrenewlife"@, d) == Some(
            RestrictionsView { max_renewable_life: Some(d), ..rs },
        ),
{
    reveal_strlit("-expire");
    reveal_strlit("-pwexpire");
    reveal_strlit("-maxlife");
    reveal_strlit("-maxrenewlife");
    assert("-expire"@.len() == 7 && "-pwexpire"@.len() == 9 && "-maxlife"@.len() == 8
        && "-maxrenewlife"@.len() == 13);
}

/// A time span grows by each number with its unit: seconds, minutes of 60,
/// hours of 3600, days of 86400 and weeks of 604800 seconds, in either case.
pub proof fn law_units_are_added(s: Seq<char>, p: Span)
    requires
        span_of(s) == Some(p),
        p.total + p.num * 604800 <= u64::MAX,
    ensures
        span_of(s.push('s')) matches Some(q) && q.total == p.total + p.num && q.have_unit && q.num
            == 0,
        span_of(s.push('m')) matches Some(q) && q.total == p.total + p.num * 60,
        span_of(s.push('h')) matches Some(q) && q.total == p.total + p.num * 3600,
        span_of(s.push('d')) matches Some(q) && q.total == p.total + p.num * 86400,
        span_of(s.push('w')) matches Some(q) && q.total == p.total + p.num * 604800,
        span_of(s.push('S')) == span_of(s.push('s')),
        span_of(s.push('M')) == span_of(s.push('m')),
        span_of(s.push('H')) == span_of(s.push('h')),
        span_of(s.push('D')) == span_of(s.push('d')),
        span_of(s.push('W')) == span_of(s.push('w')),
        forall|c: char|
            '0' <= c <= '9' ==> (#[trigger] span_of(s.push(c)) matches Some(q) && q.total == p.total
                && q.seen && !q.have_unit && q.num == 10 * p.num + (c as int - '0' as int)),
{
    assert forall|c: char| span_of((#[trigger] s.push(c)).drop_last()) == Some(p) && s.push(
        c,
    ).last() == c by {
        assert(s.push(c).drop_last() =~= s);
    }
    assert(s.push('s').last() == 's' && s.push('m').last() == 'm' && s.push('h').last() == 'h'
        && s.push('d').last() == 'd' && s.push('w').last() == 'w');
    assert(s.push('S').last() == 'S' && s.push('M').last() == 'M' && s.push('H').last() == 'H'
        && s.push('D').last() == 'D' && s.push('W').last() == 'W');
    assert forall|c: char| '0' <= c <= '9' implies (#[trigger] span_of(s.push(c)) matches Some(q)
        && q.total == p.total && q.seen && !q.have_unit && q.num == 10 * p.num + (c as int
        - '0' as int)) by {
        assert(s.push(c).last() == c);
    }
}

/// The words of a text stand between its separators, in order.
pub proof fn law_words_are_in_order(w: Seq<char>, rest: Seq<char>)
    requires
        crate::acl::parse::is_word(w),
    ensures
        words(w + seq![' '] + rest) == seq![w] + words(rest),
        words(w) == seq![w],
        words(seq![' '] + rest) == words(rest),
        words(Seq::empty()).len() == 0,
{
    let none = Seq::<char>::empty();
    let s = w + seq![' '] + rest;
    let t = seq![' '] + rest;
    assert(s =~= w + t);
    assert(s[0] == w[0]);
    assert(past_separators(s) == s);
    crate::acl::parse::lemma_word_front(w, t);
    assert(t.drop_first() =~= rest);
    assert(t[0] == ' ');
    assert(past_separators(t) == past_separators(rest));
    assert(words(t) == words(rest)) by {
        crate::acl::parse::lemma_past_separators(rest);
    }
    crate::acl::parse::lemma_word_front(w, none);
    assert(w + none =~= w);
    assert(past_separators(w) == w);
    assert(words(none) =~= Seq::<Seq<char>>::empty());
    assert(words(w) =~= seq![w] + words(none));
}

/// Restrictions are read word by word: what a flag, `-clearpolicy`, `-policy` or a
/// limit says is kept while the rest is read, and an unknown word is a failure.
pub proof fn law_restrictions_are_read_in_order(
    tokens: Seq<Seq<char>>,
    i: int,
    rs: RestrictionsView,
)
    requires
        0 <= i < tokens.len(),
    ensures
        flag_spec(tokens[i]) matches Some(f) ==> restricted(tokens, i, rs) == restricted(
            tokens,
            i + 1,
            with_flag(rs, f),
        ),
        flag_spec(tokens[i]) is None && tokens[i] == "-clearpolicy"@ ==> restricted(tokens, i, rs)
            == restricted(tokens, i + 1, RestrictionsView { clear_policy: true, ..rs }),
        flag_spec(tokens[i]) is None && tokens[i] != "-clearpolicy"@ && i + 1 == tokens.len()
            ==> restricted(tokens, i, rs) is None,
        flag_spec(tokens[i]) is None && tokens[i] == "-policy"@ && tokens[i] != "-clearpolicy"@ && i
            + 1 < tokens.len() && rs.policy is None ==> restricted(tokens, i, rs) == restricted(
            tokens,
            i + 2,
            RestrictionsView { policy: Some(tokens[i + 1]), ..rs },
        ),
        restricted(tokens, tokens.len() as int, rs) == Some(rs),
{
}

/// Which names stand for an attribute: a name that allows what the attribute
/// forbids takes it away, and a name that forbids or requires sets it. A text that
/// stands for nothing is none of these names.
pub proof fn law_names_of_each_attribute(s: Seq<char>)
    ensures
        named_flag(s) == Some((KDB_DISALLOW_POSTDATED, true)) ==> s == "allow_postdated"@
            || s == "postdateable"@,
        named_flag(s) == Some((KDB_DISALLOW_POSTDATED, false)) ==> s == "disallow_postdated"@,
        named_flag(s) == Some((KDB_DISALLOW_FORWARDABLE, true)) ==> s == "allow_forwardable"@
            || s == "forwardable"@,
        named_flag(s) == Some((KDB_DISALLOW_FORWARDABLE, false)) ==> s == "disallow_forwardable"@,
        named_flag(s) == Some((KDB_DISALLOW_TGT_BASED, true)) ==> s == "allow_tgs_req"@
            || s == "tgt_based"@,
        named_flag(s) == Some((KDB_DISALLOW_TGT_BASED, false)) ==> s == "disallow_tgt_based"@,
        named_flag(s) == Some((KDB_DISALLOW_RENEWABLE, true)) ==> s == "allow_renewable"@
            || s == "renewable"@,
        named_flag(s) == Some((KDB_DISALLOW_RENEWABLE, false)) ==> s == "disallow_renewable"@,
        named_flag(s) == Some((KDB_DISALLOW_PROXIABLE, true)) ==> s == "allow_proxiable"@
            || s == "proxiable"@,
        named_flag(s) == Some((KDB_DISALLOW_PROXIABLE, false)) ==> s == "disallow_proxiable"@,
        named_flag(s) == Some((KDB_DISALLOW_DUP_SKEY, true)) ==> s == "allow_dup_skey"@
            || s == "dup_skey"@,
        named_flag(s) == Some((KDB_DISALLOW_DUP_SKEY, false)) ==> s == "disallow_dup_skey"@,
        named_flag(s) == Some((KDB_DISALLOW_ALL_TIX, true)) ==> s == "allow_tickets"@
            || s == "allow_tix"@,
        named_flag(s) == Some((KDB_DISALLOW_ALL_TIX, false)) ==> s == "disallow_all_tix"@,
        named_flag(s) == Some((KDB_REQUIRES_PRE_AUTH, false)) ==> s == "preauth"@
            || s == "requires_pre_auth"@ || s == "requires_preauth"@,
        named_flag(s) == Some((KDB_REQUIRES_HW_AUTH, false)) ==> s == "hwauth"@
            || s == "requires_hw_auth"@ || s == "requires_hwauth"@,
        named_flag(s) == Some((KDB_REQUIRES_PWCHANGE, false)) ==> s == "needchange"@
            || s == "pwchange"@ || s == "requires_pwchange"@,
        named_flag(s) == Some((KDB_DISALLOW_SVR, true)) ==> s == "allow_svr"@ || s == "service"@,
        named_flag(s) == Some((KDB_DISALLOW_SVR, false)) ==> s == "disallow_svr"@,
        named_flag(s) == Some((KDB_PWCHANGE_SERVICE, false)) ==>
            s == "password_changing_service"@ || s == "pwchange_service"@ || s == "pwservice"@,
        named_flag(s) == Some((KDB_SUPPORT_DESMD5, false)) ==> s == "md5"@
            || s == "support_desmd5"@,
        named_flag(s) == Some((KDB_NEW_PRINC, false)) ==> s == "new_princ"@,
        named_flag(s) == Some((KDB_OK_AS_DELEGATE, false)) ==> s == "ok_as_delegate"@,
        named_flag(s) == Some((KDB_OK_TO_AUTH_AS_DELEGATE, false)) ==>
            s == "ok_to_auth_as_delegate"@,
        named_flag(s) == Some((KDB_NO_AUTH_DATA_REQUIRED, false)) ==>
            s == "no_auth_data_required"@,
        named_flag(s) == Some((KDB_LOCKDOWN_KEYS, false)) ==> s == "lockdown_keys"@,
        named_flag(s) is None ==> s != "allow_postdated"@ && s != "postdateable"@
            && s != "disallow_postdated"@ && s != "allow_forwardable"@ && s != "forwardable"@
            && s != "disallow_forwardable"@ && s != "allow_tgs_req"@ && s != "tgt_based"@
            && s != "disallow_tgt_based"@ && s != "allow_renewable"@ && s != "renewable"@
            && s != "disallow_renewable"@ && s != "allow_proxiable"@ && s != "proxiable"@
            && s != "disallow_proxiable"@ && s != "allow_dup_skey"@ && s != "dup_skey"@
            && s != "disallow_dup_skey"@ && s != "allow_tickets"@ && s != "allow_tix"@
            && s != "disallow_all_tix"@ && s != "preauth"@ && s != "requires_pre_auth"@
            && s != "requires_preauth"@ && s != "hwauth"@ && s != "requires_hw_auth"@
            && s != "requires_hwauth"@ && s != "needchange"@ && s != "pwchange"@
            && s != "requires_pwchange"@ && s != "allow_svr"@ && s != "service"@
            && s != "disallow_svr"@ && s != "password_changing_service"@
            && s != "pwchange_service"@ && s != "pwservice"@ && s != "md5"@
            && s != "support_desmd5"@ && s != "new_princ"@ && s != "ok_as_delegate"@
            && s != "ok_to_auth_as_delegate"@ && s != "no_auth_data_required"@
            && s != "lockdown_keys"@,
{
}

/// In the name of a flag a hyphen counts as an underscore and a large letter as a
/// small one; every other character counts as itself.
pub proof fn law_characters_of_a_flag(c: char)
    ensures
        flag_char('-') == '_',
        'A' <= c && c <= 'Z' ==> flag_char(c) as int == c as int + 32,
        c != '-' && !('A' <= c && c <= 'Z') ==> flag_char(c) == c,
{
}

} // verus!
