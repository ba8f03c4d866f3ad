//! Picking elements out of DER without decoding them.

use vstd::prelude::*;

verus! {

/// Header of an element: length of the length field and of the contents.
/// Lengths of up to two octets are read.
pub open spec fn der_lengths(s: Seq<u8>) -> Option<(int, int)> {
    if s.len() < 2 {
        None
    } else if s[1] < 128 {
        Some((1, s[1] as int))
    } else if s[1] == 0x81 && s.len() >= 3 {
        Some((2, s[2] as int))
    } else if s[1] == 0x82 && s.len() >= 4 {
        Some((3, 256 * (s[2] as int) + s[3] as int))
    } else {
        None
    }
}

/// The element that `s` starts with: its tag, and where its contents begin
/// and end.
pub open spec fn element(s: Seq<u8>) -> Option<(u8, int, int)> {
    match der_lengths(s) {
        Some((h, n)) => if 1 + h + n <= s.len() {
            Some((s[0], 1 + h, 1 + h + n))
        } else {
            None
        },
        None => None,
    }
}

/// The element that starts at `from`: its tag, and where its contents begin
/// and end.
pub fn take_der_slice(input: &[u8], from: usize, to: usize) -> (r: Option<(u8, usize, usize)>)
    requires
        from <= to <= input.len(),
    ensures
        match r {
            Some(e) => element(input@.subrange(from as int, to as int)) == Some(
                (e.0, e.1 - from, e.2 - from),
            ) && from + 2 <= e.1 <= e.2 <= to,
            None => element(input@.subrange(from as int, to as int)) is None,
        },
{
    let ghost s = input@.subrange(from as int, to as int);
    let len: usize = to - from;
    if len < 2 {
        return None;
    }
    let tag: u8 = input[from];
    let first: u8 = input[from + 1];
    let (hlen, ln): (usize, usize) = if first < 128 {
        (1, first as usize)
    } else if first == 0x81 && len >= 3 {
        (2, input[from + 2] as usize)
    } else if first == 0x82 && len >= 4 {
        (3, 256 * (input[from + 2] as usize) + input[from + 3] as usize)
    } else {
        return None;
    };
    if len - 1 - hlen < ln {
        return None;
    }
    Some((tag, from + 1 + hlen, from + 1 + hlen + ln))
}

/// The first element with tag `tag` in the row of elements from `from` to
/// `to`; nothing where an element before it cannot be read.
pub open spec fn tagged(s: Seq<u8>, from: int, to: int, tag: u8) -> Option<(int, int)>
    decreases to - from,
{
    if from >= to {
        None
    } else {
        match element(s.subrange(from, to)) {
            None => None,
            Some((t, a, b)) => if t == tag {
                Some((from + a, from + b))
            } else if b <= 0 || from + b > to {
                None
            } else {
                tagged(s, from + b, to, tag)
            },
        }
    }
}

/// Finds the first element with tag `tag` in a row of elements.
pub fn find_tagged(input: &[u8], from: usize, to: usize, tag: u8) -> (r: Option<(usize, usize)>)
    requires
        from <= to <= input.len(),
    ensures
        match r {
            Some(e) => tagged(input@, from as int, to as int, tag) == Some((e.0 as int, e.1 as int))
                && from <= e.0 <= e.1 <= to,
            None => tagged(input@, from as int, to as int, tag) is None,
        },
{
    let mut cur: usize = from;
    while cur < to
        invariant
            from <= cur <= to <= input.len(),
            tagged(input@, from as int, to as int, tag) == tagged(
                input@,
                cur as int,
                to as int,
                tag,
            ),
        decreases to - cur,
    {
        match take_der_slice(input, cur, to) {
            None => {
                return None;
            },
            Some((t, a, b)) => {
                if t == tag {
                    return Some((a, b));
                }
                cur = b;
            },
        }
    }
    None
}

/// Where the body of a KDC request stands in its octets: the element tagged
/// `[4]` of the sequence inside the application tag.
pub open spec fn body_range(raw: Seq<u8>) -> Option<(int, int)> {
    match element(raw) {
        None => None,
        Some((tag, a, b)) => if tag != 0x6a && tag != 0x6c {
            None
        } else {
            match element(raw.subrange(a, b)) {
                None => None,
                Some((t, c, d)) => if t == 0x30 {
                    tagged(raw, a + c, a + d, 0xa4)
                } else {
                    tagged(raw, a, b, 0xa4)
                },
            }
        },
    }
}

/// Finds the body of a KDC request in its octets.
pub fn kdc_req_body_der(raw: &[u8]) -> (r: Option<(usize, usize)>)
    ensures
        match r {
            Some(e) => body_range(raw@) == Some((e.0 as int, e.1 as int)) && e.0 <= e.1
                <= raw.len(),
            None => body_range(raw@) is None,
        },
{
    proof {
        assert(raw@.subrange(0, raw@.len() as int) =~= raw@);
    }
    match take_der_slice(raw, 0, raw.len()) {
        None => None,
        Some((tag, a, b)) => {
            if tag != 0x6a && tag != 0x6c {
                return None;
            }
            match take_der_slice(raw, a, b) {
                None => None,
                Some((t, c, d)) => if t == 0x30 {
                    find_tagged(raw, c, d, 0xa4)
                } else {
                    find_tagged(raw, a, b, 0xa4)
                },
            }
        },
    }
}

/// Where the user's identity stands in a PA-S4U-X509-USER.
pub open spec fn userid_range(raw: Seq<u8>) -> Option<(int, int)> {
    match element(raw) {
        None => None,
        Some((t, a, b)) => tagged(raw, a, b, 0xa0),
    }
}

/// Finds the user's identity in a PA-S4U-X509-USER.
pub fn userid_der_from_pa(raw: &[u8]) -> (r: Option<(usize, usize)>)
    ensures
        match r {
            Some(e) => userid_range(raw@) == Some((e.0 as int, e.1 as int)) && e.0 <= e.1
                <= raw.len(),
            None => userid_range(raw@) is None,
        },
{
    proof {
        assert(raw@.subrange(0, raw@.len() as int) =~= raw@);
    }
    match take_der_slice(raw, 0, raw.len()) {
        None => None,
        Some((t, a, b)) => find_tagged(raw, a, b, 0xa0),
    }
}

/// An element is whole: its contents end within the octets, and as many octets
/// as its length says stand between its header and its end.
pub proof fn law_element_is_whole(s: Seq<u8>)
    ensures
        element(s) matches Some((t, a, b)) ==> t == s[0] && 2 <= a <= b <= s.len() && (s[1] < 128
            ==> a == 2 && b == 2 + s[1]) && (s[1] == 0x81 ==> a == 3 && b == 3 + s[2]) && (s[1]
            == 0x82 ==> a == 4 && b == 4 + 256 * s[2] + s[3]),
        element(s) is Some ==> s[1] < 128 || s[1] == 0x81 || s[1] == 0x82,
        s.len() >= 2 && s[1] < 128 && 2 + s[1] <= s.len() ==> element(s) is Some,
{
}

/// Of the elements in a row the first with a tag is found, and those in front of
/// it are passed over.
pub proof fn law_first_tagged_is_found(s: Seq<u8>, from: int, to: int, tag: u8)
    requires
        0 <= from < to <= s.len(),
        element(s.subrange(from, to)) is Some,
    ensures
        ({
            let e = element(s.subrange(from, to))->0;
            &&& e.0 == tag ==> tagged(s, from, to, tag) == Some((from + e.1, from + e.2))
            &&& e.0 != tag ==> tagged(s, from, to, tag) == tagged(s, from + e.2, to, tag)
        }),
{
}

/// What is found is inside the row.
pub proof fn law_tagged_is_inside(s: Seq<u8>, from: int, to: int, tag: u8)
    requires
        0 <= from <= to <= s.len(),
    ensures
        tagged(s, from, to, tag) matches Some((a, b)) ==> from < a <= b <= to,
    decreases to - from,
{
    if from < to {
        if let Some((t, a, b)) = element(s.subrange(from, to)) {
            if t != tag && 0 < b && from + b <= to {
                law_tagged_is_inside(s, from + b, to, tag);
            }
        }
    }
}

/// A message that is neither an AS request nor a TGS request has no body.
pub proof fn law_other_message_has_no_body(raw: Seq<u8>)
    requires
        raw.len() == 0 || (raw[0] != 0x6a && raw[0] != 0x6c),
    ensures
        body_range(raw) is None,
{
}

} // verus!
