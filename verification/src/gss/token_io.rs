//! Tokens on a stream: each behind its length.

use crate::bytes::{append, be32, from_be32, get_be32, lemma_be32_round_trip, put_be32};
use crate::num::{decimal, push_decimal};
use crate::text::concat;
use vstd::prelude::*;
use vstd::string::*;

verus! {

/// The longest token that is read.
pub const MAX_TOKEN: u32 = 1_048_576;

/// The length of a token that may be read.
pub open spec fn token_ok(n: u32) -> bool {
    0 < n <= MAX_TOKEN
}

/// The length in front of a token; an error where it is zero or too large.
pub fn token_length(header: &[u8]) -> (r: Result<u32, String>)
    requires
        header@.len() == 4,
    ensures
        match r {
            Ok(n) => n == from_be32(header@, 0) && token_ok(n),
            Err(m) => !token_ok(from_be32(header@, 0)) && m@ == "bad token length "@ + decimal(
                from_be32(header@, 0) as nat,
            ),
        },
{
    let n: u32 = get_be32(header, 0);
    if n == 0 || n > MAX_TOKEN {
        let mut m = concat("bad token length ", "");
        proof {
            reveal_strlit("");
            assert(m@ =~= "bad token length "@);
        }
        push_decimal(&mut m, n as u64);
        return Err(m);
    }
    Ok(n)
}

/// A token on a stream; an error where its length does not fit.
pub fn token_frame(token: &[u8]) -> (r: Result<Vec<u8>, &'static str>)
    ensures
        match r {
            Ok(v) => token@.len() <= u32::MAX && v@ == be32(token@.len() as u32) + token@,
            Err(m) => token@.len() > u32::MAX && m@ == "token too large"@,
        },
{
    if token.len() as u64 > 0xffff_ffff {
        return Err("token too large");
    }
    let mut out: Vec<u8> = Vec::new();
    put_be32(&mut out, token.len() as u32);
    append(&mut out, token);
    proof {
        assert(out@ =~= be32(token@.len() as u32) + token@);
    }
    Ok(out)
}

/// A token that is written can be read where it is neither empty nor too
/// long: its length is read, and its octets stand behind.
pub proof fn law_token_round_trip(token: Seq<u8>)
    requires
        0 < token.len() <= MAX_TOKEN,
    ensures
        from_be32(be32(token.len() as u32) + token, 0) == token.len(),
        token_ok(token.len() as u32),
        (be32(token.len() as u32) + token).skip(4) == token,
{
    let n = token.len() as u32;
    let f = be32(n) + token;
    lemma_be32_round_trip(n);
    assert(f[0] == be32(n)[0] && f[1] == be32(n)[1] && f[2] == be32(n)[2] && f[3] == be32(n)[3]);
    assert(from_be32(f, 0) == from_be32(be32(n), 0));
    assert(f.skip(4) =~= token);
}

} // verus!
