//! KDC options and ticket flags as 32-bit strings, bit 0 leftmost.

use vstd::prelude::*;

verus! {

/// FORWARDABLE.
pub const FORWARDABLE: u32 = 1;

/// FORWARDED.
pub const FORWARDED: u32 = 2;

/// PROXIABLE.
pub const PROXIABLE: u32 = 3;

/// PROXY.
pub const PROXY: u32 = 4;

/// MAY-POSTDATE (ALLOW-POSTDATE in requests).
pub const MAY_POSTDATE: u32 = 5;

/// POSTDATED.
pub const POSTDATED: u32 = 6;

/// INVALID.
pub const INVALID: u32 = 7;

/// RENEWABLE.
pub const RENEWABLE: u32 = 8;

/// INITIAL.
pub const INITIAL: u32 = 9;

/// PRE-AUTHENT.
pub const PRE_AUTHENT: u32 = 10;

/// HW-AUTHENT.
pub const HW_AUTHENT: u32 = 11;

/// TRANSITED-POLICY-CHECKED.
pub const TRANSITED_POLICY_CHECKED: u32 = 12;

/// OK-AS-DELEGATE.
pub const OK_AS_DELEGATE: u32 = 13;

/// CNAME-IN-ADDL-TKT (requests).
pub const CNAME_IN_ADDL_TKT: u32 = 14;

/// CANONICALIZE (requests).
pub const CANONICALIZE: u32 = 15;

/// ENC-PA-REP (tickets).
pub const ENC_PA_REP: u32 = 15;

/// ANONYMOUS (REQUEST-ANONYMOUS in requests).
pub const ANONYMOUS: u32 = 16;

/// DISABLE-TRANSITED-CHECK (requests).
pub const DISABLE_TRANSITED_CHECK: u32 = 26;

/// RENEWABLE-OK (requests).
pub const RENEWABLE_OK: u32 = 27;

/// ENC-TKT-IN-SKEY (requests).
pub const ENC_TKT_IN_SKEY: u32 = 28;

/// RENEW (requests).
pub const RENEW: u32 = 30;

/// VALIDATE (requests).
pub const VALIDATE: u32 = 31;

/// A 32-bit flag string.
#[derive(Clone, Copy, Debug, PartialEq, Eq, Structural)]
pub struct Flags {
    /// The string as a number; bit 0 is the most significant.
    pub bits: u32,
}

/// Request options.
pub type KdcOptions = Flags;

/// Ticket flags.
pub type TicketFlags = Flags;

impl Flags {
    /// Whether bit `i` is set.
    pub open spec fn has(self, i: int) -> bool {
        0 <= i < 32 && (self.bits >> ((31 - i) as u32)) & 1u32 == 1u32
    }

    /// The string with bit `i` set to `v` and every other bit kept.
    pub open spec fn with(self, i: int, v: bool) -> Flags {
        if v {
            Flags { bits: self.bits | (1u32 << ((31 - i) as u32)) }
        } else {
            Flags { bits: self.bits & !(1u32 << ((31 - i) as u32)) }
        }
    }

    /// The empty flag string.
    pub fn none() -> (r: Flags)
        ensures
            forall|i: int| !#[trigger] r.has(i),
            r.bits == 0,
    {
        let r = Flags { bits: 0 };
        assert forall|i: int| !#[trigger] r.has(i) by {
            if 0 <= i < 32 {
                let k: u32 = (31 - i) as u32;
                assert((0u32 >> k) & 1u32 == 0u32) by (bit_vector);
            }
        }
        r
    }

    /// Whether bit `i` is set.
    pub fn bit(self, i: u32) -> (r: bool)
        requires
            i < 32,
        ensures
            r == self.has(i as int),
    {
        (self.bits >> (31 - i)) & 1u32 == 1u32
    }

    /// Sets or clears bit `i`.
    pub fn with_bit(self, i: u32, v: bool) -> (r: Flags)
        requires
            i < 32,
        ensures
            r == self.with(i as int, v),
            forall|j: int| #[trigger] r.has(j) == (if j == i { v } else { self.has(j) }),
    {
        let r = if v {
            Flags { bits: self.bits | (1u32 << (31 - i)) }
        } else {
            Flags { bits: self.bits & !(1u32 << (31 - i)) }
        };
        proof {
            assert forall|j: int| #[trigger] r.has(j) == (if j == i { v } else { self.has(j) }) by {
                lemma_with_has(self, i as int, v, j);
            }
        }
        r
    }
}

/// Setting one bit changes that bit and no other.
pub proof fn lemma_with_has(f: Flags, i: int, v: bool, j: int)
    requires
        0 <= i < 32,
    ensures
        f.with(i, v).has(j) == (if j == i { v } else { f.has(j) }),
{
    if 0 <= j < 32 {
        let b = f.bits;
        let a: u32 = (31 - i) as u32;
        let c: u32 = (31 - j) as u32;
        assert(((b | (1u32 << a)) >> c) & 1u32 == (if a == c { 1u32 } else { (b >> c) & 1u32 }))
            by (bit_vector)
            requires
                a < 32,
                c < 32,
        ;
        assert(((b & !(1u32 << a)) >> c) & 1u32 == (if a == c { 0u32 } else { (b >> c) & 1u32 }))
            by (bit_vector)
            requires
                a < 32,
                c < 32,
        ;
        assert((b >> c) & 1u32 == 0u32 || (b >> c) & 1u32 == 1u32) by (bit_vector);
    }
}

/// Setting a bit sets that bit and leaves every other as it is.
pub proof fn law_only_the_bit_is_set(f: Flags, i: int, v: bool, j: int)
    requires
        0 <= i < 32,
    ensures
        f.with(i, v).has(i) == v,
        j != i ==> f.with(i, v).has(j) == f.has(j),
        !(0 <= j < 32) ==> !f.has(j),
{
    lemma_with_has(f, i, v, i);
    lemma_with_has(f, i, v, j);
}

/// The first bit is the most significant and the last the least.
pub proof fn law_first_bit_is_most_significant(f: Flags)
    ensures
        f.has(0) <==> f.bits >= 0x8000_0000,
        f.has(31) <==> f.bits % 2 == 1,
{
    let b = f.bits;
    assert(((b >> 31u32) & 1u32 == 1u32) == (b >= 0x8000_0000u32) && ((b >> 0u32) & 1u32 == 1u32)
        == (b % 2 == 1)) by (bit_vector);
}

} // verus!
