//! The record that administration keeps in every principal: the bound policy
//! and the password history. It is written in XDR: integers of four octets,
//! and octet strings after their length, padded to four octets.

use crate::bytes::{
    append, be32, copy, copy_range, from_be32, get_be32, lemma_be32_round_trip, put_be32,
};
use crate::outside::utf8_text;
use crate::store::{key_views, KeyEntry, KeyView, TlData, TL_KADM_DATA};
use vstd::prelude::*;
use vstd::slice::slice_subrange;
use vstd::string::*;
use vstd::utf8::{decode_utf8, encode_utf8, valid_utf8};

verus! {

/// Version of the record.
pub const OSA_ADB_PRINC_VERSION_1: u32 = 0x1234_5c01;

/// Auxiliary attribute: a policy is bound.
pub const KADM5_POLICY: u32 = 0x0000_0800;

/// The version number of the history key that a new record starts at.
pub const INITIAL_HIST_KVNO: u32 = 2;

/// One key of an old password, encrypted in the history key.
#[derive(Clone, Debug, PartialEq, Eq)]
pub struct OsaKeyData {
    /// One where there is no salt, two where there is one.
    pub ver: u16,
    /// Key version number.
    pub kvno: u16,
    /// Encryption type and salt type.
    pub types: [i16; 2],
    /// Encrypted key and salt.
    pub contents: [Vec<u8>; 2],
}

/// What a key of an old password says.
#[verifier::ext_equal]
pub struct OsaKeyView {
    /// One where there is no salt, two where there is one.
    pub ver: u16,
    /// Key version number.
    pub kvno: u16,
    /// Encryption type.
    pub key_type: i16,
    /// Salt type.
    pub salt_type: i16,
    /// Encrypted key.
    pub key: Seq<u8>,
    /// Salt.
    pub salt: Seq<u8>,
}

impl View for OsaKeyData {
    type V = OsaKeyView;

    open spec fn view(&self) -> OsaKeyView {
        OsaKeyView {
            ver: self.ver,
            kvno: self.kvno,
            key_type: self.types@[0],
            salt_type: self.types@[1],
            key: self.contents@[0]@,
            salt: self.contents@[1]@,
        }
    }
}

impl Default for OsaKeyData {
    fn default() -> (r: OsaKeyData)
        ensures
            r@ == (OsaKeyView {
                ver: 0,
                kvno: 0,
                key_type: 0,
                salt_type: 0,
                key: Seq::empty(),
                salt: Seq::empty(),
            }),
    {
        OsaKeyData { ver: 0, kvno: 0, types: [0, 0], contents: [Vec::new(), Vec::new()] }
    }
}

/// The record.
#[derive(Clone, Debug, PartialEq, Eq)]
pub struct OsaPrincEnt {
    /// Name of the policy; it is bound where the attributes say so.
    pub policy: Option<String>,
    /// Auxiliary attributes.
    pub aux_attributes: u32,
    /// Place in the history that the next old password takes.
    pub old_key_next: u32,
    /// Version number of the history key.
    pub admin_history_kvno: u32,
    /// The keys of each old password.
    pub old_keys: Vec<Vec<OsaKeyData>>,
}

/// What a record says.
#[verifier::ext_equal]
pub struct OsaView {
    /// Name of the policy.
    pub policy: Option<Seq<char>>,
    /// Auxiliary attributes.
    pub aux_attributes: u32,
    /// Place in the history that the next old password takes.
    pub old_key_next: u32,
    /// Version number of the history key.
    pub admin_history_kvno: u32,
    /// The keys of each old password.
    pub old_keys: Seq<Seq<OsaKeyView>>,
}

impl OsaView {
    /// The name of the bound policy: the attributes say whether one is bound, and
    /// an empty name is none.
    pub open spec fn bound(self) -> Option<Seq<char>> {
        if self.aux_attributes & KADM5_POLICY != 0 {
            match self.policy {
                Some(p) => if p.len() > 0 {
                    Some(p)
                } else {
                    None
                },
                None => None,
            }
        } else {
            None
        }
    }
}

/// A policy is bound where the attributes say so and it has a name, and then it is
/// the one of the record.
pub proof fn law_policy_is_bound_by_the_attributes(r: OsaView)
    ensures
        r.bound() is Some <==> r.aux_attributes & 0x800 != 0 && r.policy is Some
            && r.policy->0.len() > 0,
        r.bound() is Some ==> r.bound() == r.policy,
{
}

/// What the keys of one old password say.
pub open spec fn osa_key_views(v: Seq<OsaKeyData>) -> Seq<OsaKeyView> {
    v.map_values(|k: OsaKeyData| k@)
}

/// What the history says.
pub open spec fn history_views(v: Seq<Vec<OsaKeyData>>) -> Seq<Seq<OsaKeyView>> {
    v.map_values(|e: Vec<OsaKeyData>| osa_key_views(e@))
}

/// The characters of an optional text.
pub open spec fn text_view(s: Option<String>) -> Option<Seq<char>> {
    match s {
        Some(t) => Some(t@),
        None => None,
    }
}

impl View for OsaPrincEnt {
    type V = OsaView;

    open spec fn view(&self) -> OsaView {
        OsaView {
            policy: text_view(self.policy),
            aux_attributes: self.aux_attributes,
            old_key_next: self.old_key_next,
            admin_history_kvno: self.admin_history_kvno,
            old_keys: history_views(self.old_keys@),
        }
    }
}

impl Default for OsaPrincEnt {
    fn default() -> (r: OsaPrincEnt)
        ensures
            r@ == (OsaView {
                policy: None,
                aux_attributes: 0,
                old_key_next: 0,
                admin_history_kvno: INITIAL_HIST_KVNO,
                old_keys: Seq::empty(),
            }),
    {
        OsaPrincEnt {
            policy: None,
            aux_attributes: 0,
            old_key_next: 0,
            admin_history_kvno: INITIAL_HIST_KVNO,
            old_keys: Vec::new(),
        }
    }
}

/// Why octets are no record.
#[derive(Clone, Copy, Debug, PartialEq, Eq)]
pub enum OsaError {
    /// Another version.
    Version(u32),
    /// Truncated, or of a wrong size.
    Xdr(&'static str),
}

/// An integer at `i`, and where it ends.
pub open spec fn xdr_int(b: Seq<u8>, i: int) -> Result<(u32, int), OsaError> {
    if i + 4 > usize::MAX {
        Err(OsaError::Xdr("length"))
    } else if i + 4 > b.len() {
        Err(OsaError::Xdr("short int"))
    } else {
        Ok((from_be32(b, i), i + 4))
    }
}

/// Octets that fill `n` octets up to a multiple of four.
pub open spec fn padding(n: int) -> int {
    (4 - n % 4) % 4
}

/// An octet string at `i`, and where it ends.
pub open spec fn xdr_octets(b: Seq<u8>, i: int) -> Result<(Seq<u8>, int), OsaError> {
    match xdr_int(b, i) {
        Err(e) => Err(e),
        Ok((n, j)) => if j + n > usize::MAX {
            Err(OsaError::Xdr("length"))
        } else if j + n > b.len() {
            Err(OsaError::Xdr("short opaque"))
        } else if j + n + padding(n as int) > b.len() {
            Err(OsaError::Xdr("short padding"))
        } else {
            Ok((b.subrange(j, j + n), j + n + padding(n as int)))
        },
    }
}

/// Octets that end in a NUL and hold no other.
pub open spec fn is_c_string(s: Seq<u8>) -> bool {
    s.len() > 0 && s.last() == 0 && !s.drop_last().contains(0)
}

/// A text at `i`, which is absent where its size is zero, and where it ends.
pub open spec fn xdr_text(b: Seq<u8>, i: int) -> Result<(Option<Seq<char>>, int), OsaError> {
    match xdr_octets(b, i) {
        Err(e) => Err(e),
        Ok((s, j)) => if s.len() == 0 {
            Ok((None, j))
        } else if !is_c_string(s) {
            Err(OsaError::Xdr("policy not a C string"))
        } else if !valid_utf8(s.drop_last()) {
            Err(OsaError::Xdr("policy utf-8"))
        } else {
            Ok((Some(decode_utf8(s.drop_last())), j))
        },
    }
}

/// A short signed integer out of a word.
pub open spec fn short_of(v: u32) -> Option<i16> {
    if v <= 0x7fff {
        Some(v as i16)
    } else if v >= 0xffff_8000 {
        Some((v - 0x1_0000_0000) as i16)
    } else {
        None
    }
}

/// The word of a short signed integer.
pub open spec fn word_of(t: i16) -> u32 {
    if t >= 0 {
        t as u32
    } else {
        (t + 0x1_0000_0000) as u32
    }
}

/// The integers that a key starts with.
pub open spec fn key_head(b: Seq<u8>, i: int) -> Result<(u16, u16, i16, i16), OsaError> {
    match xdr_int(b, i) {
        Err(e) => Err(e),
        Ok((ver, _)) => if ver > 0xffff {
            Err(OsaError::Xdr("key_data_ver"))
        } else {
            match xdr_int(b, i + 4) {
                Err(e) => Err(e),
                Ok((kvno, _)) => if kvno > 0xffff {
                    Err(OsaError::Xdr("key_data_kvno"))
                } else {
                    match xdr_int(b, i + 8) {
                        Err(e) => Err(e),
                        Ok((t0, _)) => match short_of(t0) {
                            None => Err(OsaError::Xdr("type")),
                            Some(s0) => match xdr_int(b, i + 12) {
                                Err(e) => Err(e),
                                Ok((t1, _)) => match short_of(t1) {
                                    None => Err(OsaError::Xdr("type")),
                                    Some(s1) => Ok((ver as u16, kvno as u16, s0, s1)),
                                },
                            },
                        },
                    }
                },
            }
        },
    }
}

/// The lengths and the octet strings that a key ends with.
pub open spec fn key_tail(b: Seq<u8>, i: int) -> Result<(Seq<u8>, Seq<u8>, int), OsaError> {
    match xdr_int(b, i) {
        Err(e) => Err(e),
        Ok((l0, _)) => match xdr_int(b, i + 4) {
            Err(e) => Err(e),
            Ok((l1, _)) => match xdr_octets(b, i + 8) {
                Err(e) => Err(e),
                Ok((c0, j)) => match xdr_octets(b, j) {
                    Err(e) => Err(e),
                    Ok((c1, k)) => if c0.len() != l0 || c1.len() != l1 {
                        Err(OsaError::Xdr("key_data_length"))
                    } else {
                        Ok((c0, c1, k))
                    },
                },
            },
        },
    }
}

/// A key at `i`, and where it ends.
pub open spec fn xdr_key(b: Seq<u8>, i: int) -> Result<(OsaKeyView, int), OsaError> {
    match key_head(b, i) {
        Err(e) => Err(e),
        Ok((ver, kvno, key_type, salt_type)) => match key_tail(b, i + 16) {
            Err(e) => Err(e),
            Ok((key, salt, j)) => Ok(
                (OsaKeyView { ver, kvno, key_type, salt_type, key, salt }, j),
            ),
        },
    }
}

/// Keys from `i` on, and where they end.
pub open spec fn xdr_keys(b: Seq<u8>, i: int, n: nat) -> Result<(Seq<OsaKeyView>, int), OsaError>
    decreases n,
{
    if n == 0 {
        Ok((Seq::empty(), i))
    } else {
        match xdr_key(b, i) {
            Err(e) => Err(e),
            Ok((k, j)) => match xdr_keys(b, j, (n - 1) as nat) {
                Err(e) => Err(e),
                Ok((rest, e)) => Ok((seq![k] + rest, e)),
            },
        }
    }
}

/// Old passwords from `i` on, each after the number of its keys, and where
/// they end.
pub open spec fn xdr_history(b: Seq<u8>, i: int, n: nat) -> Result<
    (Seq<Seq<OsaKeyView>>, int),
    OsaError,
>
    decreases n,
{
    if n == 0 {
        Ok((Seq::empty(), i))
    } else {
        match xdr_int(b, i) {
            Err(e) => Err(e),
            Ok((count, j)) => match xdr_keys(b, j, count as nat) {
                Err(e) => Err(e),
                Ok((keys, k)) => match xdr_history(b, k, (n - 1) as nat) {
                    Err(e) => Err(e),
                    Ok((rest, e)) => Ok((seq![keys] + rest, e)),
                },
            },
        }
    }
}

/// The record that octets start with, and where it ends.
pub open spec fn xdr_record(b: Seq<u8>) -> Result<(OsaView, int), OsaError> {
    match xdr_int(b, 0) {
        Err(e) => Err(e),
        Ok((version, _)) => if version != OSA_ADB_PRINC_VERSION_1 {
            Err(OsaError::Version(version))
        } else {
            match xdr_text(b, 4) {
                Err(e) => Err(e),
                Ok((policy, i)) => match xdr_int(b, i) {
                    Err(e) => Err(e),
                    Ok((aux_attributes, _)) => match xdr_int(b, i + 4) {
                        Err(e) => Err(e),
                        Ok((old_key_next, _)) => match xdr_int(b, i + 8) {
                            Err(e) => Err(e),
                            Ok((admin_history_kvno, _)) => match xdr_int(b, i + 12) {
                                Err(e) => Err(e),
                                Ok((n, _)) => match xdr_history(b, i + 16, n as nat) {
                                    Err(e) => Err(e),
                                    Ok((old_keys, e)) => Ok(
                                        (
                                            OsaView {
                                                policy,
                                                aux_attributes,
                                                old_key_next,
                                                admin_history_kvno,
                                                old_keys,
                                            },
                                            e,
                                        ),
                                    ),
                                },
                            },
                        },
                    },
                },
            }
        },
    }
}

/// Reads an integer.
fn get_int(b: &[u8], i: usize) -> (r: Result<(u32, usize), OsaError>)
    ensures
        match r {
            Ok((v, j)) => xdr_int(b@, i as int) == Ok::<(u32, int), OsaError>((v, j as int)),
            Err(e) => xdr_int(b@, i as int) == Err::<(u32, int), OsaError>(e),
        },
{
    match i.checked_add(4) {
        None => Err(OsaError::Xdr("length")),
        Some(end) => {
            if end > b.len() {
                Err(OsaError::Xdr("short int"))
            } else {
                Ok((get_be32(b, i), end))
            }
        },
    }
}

/// Reads an octet string.
fn get_octets(b: &[u8], i: usize) -> (r: Result<(Vec<u8>, usize), OsaError>)
    ensures
        match r {
            Ok((v, j)) => xdr_octets(b@, i as int) == Ok::<(Seq<u8>, int), OsaError>(
                (v@, j as int),
            ),
            Err(e) => xdr_octets(b@, i as int) == Err::<(Seq<u8>, int), OsaError>(e),
        },
{
    let (n, j): (u32, usize) = match get_int(b, i) {
        Err(e) => {
            return Err(e);
        },
        Ok(p) => p,
    };
    match j.checked_add(n as usize) {
        None => Err(OsaError::Xdr("length")),
        Some(end) => {
            if end > b.len() {
                return Err(OsaError::Xdr("short opaque"));
            }
            let pad: usize = (4 - (n as usize) % 4) % 4;
            if pad > b.len() - end {
                return Err(OsaError::Xdr("short padding"));
            }
            Ok((copy_range(b, j, end), end + pad))
        },
    }
}

/// Reads a text.
fn get_text(b: &[u8], i: usize) -> (r: Result<(Option<String>, usize), OsaError>)
    ensures
        match r {
            Ok((v, j)) => xdr_text(b@, i as int) == Ok::<(Option<Seq<char>>, int), OsaError>(
                (text_view(v), j as int),
            ),
            Err(e) => xdr_text(b@, i as int) == Err::<(Option<Seq<char>>, int), OsaError>(e),
        },
{
    let (s, j): (Vec<u8>, usize) = match get_octets(b, i) {
        Err(e) => {
            return Err(e);
        },
        Ok(p) => p,
    };
    if s.len() == 0 {
        return Ok((None, j));
    }
    let last: usize = s.len() - 1;
    if s[last] != 0 {
        return Err(OsaError::Xdr("policy not a C string"));
    }
    let mut k: usize = 0;
    while k < last
        invariant
            k <= last,
            last + 1 == s@.len(),
            s@.last() == 0,
            xdr_octets(b@, i as int) == Ok::<(Seq<u8>, int), OsaError>((s@, j as int)),
            forall|m: int| 0 <= m < k ==> s@.drop_last()[m] != 0,
        decreases last - k,
    {
        if s[k] == 0 {
            proof {
                assert(s@.drop_last()[k as int] == 0);
            }
            return Err(OsaError::Xdr("policy not a C string"));
        }
        k = k + 1;
    }
    proof {
        assert(s@.drop_last() =~= s@.subrange(0, last as int));
        assert(is_c_string(s@));
    }
    match utf8_text(slice_subrange(s.as_slice(), 0, last)) {
        None => Err(OsaError::Xdr("policy utf-8")),
        Some(t) => Ok((Some(t.to_owned()), j)),
    }
}

/// A short signed integer out of a word.
fn get_short(v: u32) -> (r: Option<i16>)
    ensures
        r == short_of(v),
{
    if v <= 0x7fff {
        Some(v as i16)
    } else if v >= 0xffff_8000 {
        Some((v as i64 - 0x1_0000_0000) as i16)
    } else {
        None
    }
}

impl OsaKeyData {
    /// Reads a key.
    fn decode(b: &[u8], i: usize) -> (r: Result<(OsaKeyData, usize), OsaError>)
        ensures
            match r {
                Ok((v, j)) => xdr_key(b@, i as int) == Ok::<(OsaKeyView, int), OsaError>(
                    (v@, j as int),
                ),
                Err(e) => xdr_key(b@, i as int) == Err::<(OsaKeyView, int), OsaError>(e),
            },
    {
        let (ver, i1): (u32, usize) = match get_int(b, i) {
            Err(e) => {
                return Err(e);
            },
            Ok(p) => p,
        };
        if ver > 0xffff {
            return Err(OsaError::Xdr("key_data_ver"));
        }
        let (kvno, i2): (u32, usize) = match get_int(b, i1) {
            Err(e) => {
                return Err(e);
            },
            Ok(p) => p,
        };
        if kvno > 0xffff {
            return Err(OsaError::Xdr("key_data_kvno"));
        }
        let (w0, i3): (u32, usize) = match get_int(b, i2) {
            Err(e) => {
                return Err(e);
            },
            Ok(p) => p,
        };
        let t0: i16 = match get_short(w0) {
            None => {
                return Err(OsaError::Xdr("type"));
            },
            Some(t) => t,
        };
        let (w1, i4): (u32, usize) = match get_int(b, i3) {
            Err(e) => {
                return Err(e);
            },
            Ok(p) => p,
        };
        let t1: i16 = match get_short(w1) {
            None => {
                return Err(OsaError::Xdr("type"));
            },
            Some(t) => t,
        };
        proof {
            assert(key_head(b@, i as int) == Ok::<(u16, u16, i16, i16), OsaError>(
                (ver as u16, kvno as u16, t0, t1),
            ));
            assert(i4 == i + 16);
        }
        let (l0, i5): (u32, usize) = match get_int(b, i4) {
            Err(e) => {
                return Err(e);
            },
            Ok(p) => p,
        };
        let (l1, i6): (u32, usize) = match get_int(b, i5) {
            Err(e) => {
                return Err(e);
            },
            Ok(p) => p,
        };
        let (c0, i7): (Vec<u8>, usize) = match get_octets(b, i6) {
            Err(e) => {
                return Err(e);
            },
            Ok(p) => p,
        };
        let (c1, i8): (Vec<u8>, usize) = match get_octets(b, i7) {
            Err(e) => {
                return Err(e);
            },
            Ok(p) => p,
        };
        if c0.len() != l0 as usize || c1.len() != l1 as usize {
            return Err(OsaError::Xdr("key_data_length"));
        }
        Ok(
            (
                OsaKeyData {
                    ver: ver as u16,
                    kvno: kvno as u16,
                    types: [t0, t1],
                    contents: [c0, c1],
                },
                i8,
            ),
        )
    }
}

/// Reads keys.
fn get_keys(b: &[u8], from: usize, n: u32) -> (r: Result<(Vec<OsaKeyData>, usize), OsaError>)
    ensures
        match r {
            Ok((v, j)) => xdr_keys(b@, from as int, n as nat) == Ok::<
                (Seq<OsaKeyView>, int),
                OsaError,
            >((osa_key_views(v@), j as int)),
            Err(e) => xdr_keys(b@, from as int, n as nat) == Err::<
                (Seq<OsaKeyView>, int),
                OsaError,
            >(e),
        },
{
    let mut out: Vec<OsaKeyData> = Vec::new();
    let mut at: usize = from;
    let mut k: u32 = 0;
    proof {
        assert(osa_key_views(out@) =~= Seq::empty());
        match xdr_keys(b@, from as int, n as nat) {
            Ok((rest, e)) => {
                assert(osa_key_views(out@) + rest =~= rest);
            },
            Err(e) => {},
        }
    }
    while k < n
        invariant
            k <= n,
            match xdr_keys(b@, at as int, (n - k) as nat) {
                Ok((rest, e)) => xdr_keys(b@, from as int, n as nat) == Ok::<
                    (Seq<OsaKeyView>, int),
                    OsaError,
                >((osa_key_views(out@) + rest, e)),
                Err(e) => xdr_keys(b@, from as int, n as nat) == Err::<
                    (Seq<OsaKeyView>, int),
                    OsaError,
                >(e),
            },
        decreases n - k,
    {
        let ghost before = out@;
        match OsaKeyData::decode(b, at) {
            Err(e) => {
                return Err(e);
            },
            Ok((key, j)) => {
                out.push(key);
                at = j;
                proof {
                    match xdr_keys(b@, at as int, (n - k - 1) as nat) {
                        Ok((rest, e)) => {
                            assert(osa_key_views(before) + (seq![key@] + rest) =~= osa_key_views(
                                out@,
                            ) + rest);
                        },
                        Err(e) => {},
                    }
                }
            },
        }
        k = k + 1;
    }
    proof {
        assert(osa_key_views(out@) + Seq::<OsaKeyView>::empty() =~= osa_key_views(out@));
    }
    Ok((out, at))
}

/// Reads the history.
fn get_history(b: &[u8], from: usize, n: u32) -> (r: Result<
    (Vec<Vec<OsaKeyData>>, usize),
    OsaError,
>)
    ensures
        match r {
            Ok((v, j)) => xdr_history(b@, from as int, n as nat) == Ok::<
                (Seq<Seq<OsaKeyView>>, int),
                OsaError,
            >((history_views(v@), j as int)),
            Err(e) => xdr_history(b@, from as int, n as nat) == Err::<
                (Seq<Seq<OsaKeyView>>, int),
                OsaError,
            >(e),
        },
{
    let mut out: Vec<Vec<OsaKeyData>> = Vec::new();
    let mut at: usize = from;
    let mut k: u32 = 0;
    proof {
        match xdr_history(b@, from as int, n as nat) {
            Ok((rest, e)) => {
                assert(history_views(out@) + rest =~= rest);
            },
            Err(e) => {},
        }
    }
    while k < n
        invariant
            k <= n,
            match xdr_history(b@, at as int, (n - k) as nat) {
                Ok((rest, e)) => xdr_history(b@, from as int, n as nat) == Ok::<
                    (Seq<Seq<OsaKeyView>>, int),
                    OsaError,
                >((history_views(out@) + rest, e)),
                Err(e) => xdr_history(b@, from as int, n as nat) == Err::<
                    (Seq<Seq<OsaKeyView>>, int),
                    OsaError,
                >(e),
            },
        decreases n - k,
    {
        let ghost before = out@;
        let (count, j): (u32, usize) = match get_int(b, at) {
            Err(e) => {
                return Err(e);
            },
            Ok(p) => p,
        };
        match get_keys(b, j, count) {
            Err(e) => {
                return Err(e);
            },
            Ok((keys, end)) => {
                let ghost kv = osa_key_views(keys@);
                out.push(keys);
                at = end;
                proof {
                    match xdr_history(b@, at as int, (n - k - 1) as nat) {
                        Ok((rest, e)) => {
                            assert(history_views(before) + (seq![kv] + rest) =~= history_views(out@)
                                + rest);
                        },
                        Err(e) => {},
                    }
                }
            },
        }
        k = k + 1;
    }
    proof {
        assert(history_views(out@) + Seq::<Seq<OsaKeyView>>::empty() =~= history_views(out@));
    }
    Ok((out, at))
}

/// The octets of an octet string. A length that no word holds is written as
/// the largest word.
pub open spec fn put_octets_bytes(s: Seq<u8>) -> Seq<u8> {
    be32(
        if s.len() <= u32::MAX {
            s.len() as u32
        } else {
            u32::MAX
        },
    ) + s + Seq::new(padding(s.len() as int) as nat, |i: int| 0u8)
}

/// The word of a count; zero where no word holds it.
pub open spec fn count_word(n: nat) -> u32 {
    if n <= u32::MAX {
        n as u32
    } else {
        0
    }
}

/// The octets of a key.
pub open spec fn key_bytes(k: OsaKeyView) -> Seq<u8> {
    be32(k.ver as u32) + be32(k.kvno as u32) + be32(word_of(k.key_type)) + be32(
        word_of(k.salt_type),
    ) + be32(count_word(k.key.len())) + be32(count_word(k.salt.len())) + put_octets_bytes(k.key)
        + put_octets_bytes(k.salt)
}

/// The octets of keys.
pub open spec fn keys_bytes(v: Seq<OsaKeyView>) -> Seq<u8>
    decreases v.len(),
{
    if v.len() == 0 {
        Seq::empty()
    } else {
        key_bytes(v[0]) + keys_bytes(v.drop_first())
    }
}

/// The octets of a history.
pub open spec fn history_bytes(v: Seq<Seq<OsaKeyView>>) -> Seq<u8>
    decreases v.len(),
{
    if v.len() == 0 {
        Seq::empty()
    } else {
        be32(count_word(v[0].len())) + keys_bytes(v[0]) + history_bytes(v.drop_first())
    }
}

/// The octets of a policy name.
pub open spec fn policy_bytes(p: Option<Seq<char>>) -> Seq<u8> {
    match p {
        Some(t) => put_octets_bytes(encode_utf8(t).push(0)),
        None => be32(0),
    }
}

/// The octets of a record.
pub open spec fn record_bytes(r: OsaView) -> Seq<u8> {
    be32(OSA_ADB_PRINC_VERSION_1) + policy_bytes(r.policy) + be32(r.aux_attributes) + be32(
        r.old_key_next,
    ) + be32(r.admin_history_kvno) + be32(count_word(r.old_keys.len())) + history_bytes(r.old_keys)
}

/// Writes an octet string.
fn put_octets(out: &mut Vec<u8>, b: &[u8])
    ensures
        final(out)@ == old(out)@ + put_octets_bytes(b@),
{
    let n: u32 = if b.len() as u64 <= 0xffff_ffff {
        b.len() as u32
    } else {
        u32::MAX
    };
    put_be32(out, n);
    append(out, b);
    let pad: usize = (4 - b.len() % 4) % 4;
    let ghost before = out@;
    let mut k: usize = 0;
    while k < pad
        invariant
            k <= pad,
            out@ == before + Seq::new(k as nat, |i: int| 0u8),
        decreases pad - k,
    {
        out.push(0);
        k = k + 1;
        proof {
            assert(out@ =~= before + Seq::new(k as nat, |i: int| 0u8));
        }
    }
    proof {
        assert(out@ =~= old(out)@ + put_octets_bytes(b@));
    }
}

/// The word of a count.
fn count_of(n: usize) -> (r: u32)
    ensures
        r == count_word(n as nat),
{
    if n as u64 <= 0xffff_ffff {
        n as u32
    } else {
        0
    }
}

/// The word of a short signed integer.
fn short_word(t: i16) -> (r: u32)
    ensures
        r == word_of(t),
{
    if t >= 0 {
        t as u32
    } else {
        (t as i64 + 0x1_0000_0000) as u32
    }
}

impl OsaKeyData {
    /// Writes the key.
    fn encode(&self, out: &mut Vec<u8>)
        ensures
            final(out)@ == old(out)@ + key_bytes(self@),
    {
        put_be32(out, self.ver as u32);
        put_be32(out, self.kvno as u32);
        put_be32(out, short_word(self.types[0]));
        put_be32(out, short_word(self.types[1]));
        put_be32(out, count_of(self.contents[0].len()));
        put_be32(out, count_of(self.contents[1].len()));
        put_octets(out, self.contents[0].as_slice());
        put_octets(out, self.contents[1].as_slice());
        proof {
            assert(out@ =~= old(out)@ + key_bytes(self@));
        }
    }
}

/// Octets of keys, with one more key at the end.
proof fn lemma_keys_push(v: Seq<OsaKeyView>, k: OsaKeyView)
    ensures
        keys_bytes(v.push(k)) == keys_bytes(v) + key_bytes(k),
    decreases v.len(),
{
    if v.len() == 0 {
        assert(v.push(k).drop_first() =~= Seq::<OsaKeyView>::empty());
        assert(keys_bytes(Seq::<OsaKeyView>::empty()) == Seq::<u8>::empty());
        assert(keys_bytes(v.push(k)) =~= keys_bytes(v) + key_bytes(k));
    } else {
        lemma_keys_push(v.drop_first(), k);
        assert(v.push(k).drop_first() =~= v.drop_first().push(k));
        assert(keys_bytes(v.push(k)) =~= keys_bytes(v) + key_bytes(k));
    }
}

/// Octets of a history, with one more old password at the end.
proof fn lemma_history_push(v: Seq<Seq<OsaKeyView>>, e: Seq<OsaKeyView>)
    ensures
        history_bytes(v.push(e)) == history_bytes(v) + (be32(count_word(e.len())) + keys_bytes(e)),
    decreases v.len(),
{
    if v.len() == 0 {
        assert(v.push(e).drop_first() =~= Seq::<Seq<OsaKeyView>>::empty());
        assert(history_bytes(Seq::<Seq<OsaKeyView>>::empty()) == Seq::<u8>::empty());
        assert(history_bytes(v.push(e)) =~= history_bytes(v) + (be32(count_word(e.len()))
            + keys_bytes(e)));
    } else {
        lemma_history_push(v.drop_first(), e);
        assert(v.push(e).drop_first() =~= v.drop_first().push(e));
        assert(history_bytes(v.push(e)) =~= history_bytes(v) + (be32(count_word(e.len()))
            + keys_bytes(e)));
    }
}

/// Writes keys.
fn put_keys(out: &mut Vec<u8>, v: &[OsaKeyData])
    ensures
        final(out)@ == old(out)@ + keys_bytes(osa_key_views(v@)),
{
    let ghost before = out@;
    let mut i: usize = 0;
    proof {
        assert(osa_key_views(v@.take(0)) =~= Seq::empty());
        assert(out@ =~= before + keys_bytes(osa_key_views(v@.take(0))));
    }
    while i < v.len()
        invariant
            i <= v@.len(),
            out@ == before + keys_bytes(osa_key_views(v@.take(i as int))),
        decreases v@.len() - i,
    {
        v[i].encode(out);
        proof {
            lemma_keys_push(osa_key_views(v@.take(i as int)), v@[i as int]@);
            assert(osa_key_views(v@.take(i + 1)) =~= osa_key_views(v@.take(i as int)).push(
                v@[i as int]@,
            ));
            assert(out@ =~= before + keys_bytes(osa_key_views(v@.take(i + 1))));
        }
        i = i + 1;
    }
    proof {
        assert(v@.take(v@.len() as int) =~= v@);
    }
}

impl OsaPrincEnt {
    /// Reads a record; octets behind it are not looked at.
    pub fn decode(b: &[u8]) -> (r: Result<OsaPrincEnt, OsaError>)
        ensures
            match r {
                Ok(v) => xdr_record(b@) is Ok && (xdr_record(b@)->Ok_0).0 == v@,
                Err(e) => xdr_record(b@) == Err::<(OsaView, int), OsaError>(e),
            },
    {
        let (version, i0): (u32, usize) = match get_int(b, 0) {
            Err(e) => {
                return Err(e);
            },
            Ok(p) => p,
        };
        if version != OSA_ADB_PRINC_VERSION_1 {
            return Err(OsaError::Version(version));
        }
        let (policy, i1): (Option<String>, usize) = match get_text(b, i0) {
            Err(e) => {
                return Err(e);
            },
            Ok(p) => p,
        };
        let (aux_attributes, i2): (u32, usize) = match get_int(b, i1) {
            Err(e) => {
                return Err(e);
            },
            Ok(p) => p,
        };
        let (old_key_next, i3): (u32, usize) = match get_int(b, i2) {
            Err(e) => {
                return Err(e);
            },
            Ok(p) => p,
        };
        let (admin_history_kvno, i4): (u32, usize) = match get_int(b, i3) {
            Err(e) => {
                return Err(e);
            },
            Ok(p) => p,
        };
        let (n, i5): (u32, usize) = match get_int(b, i4) {
            Err(e) => {
                return Err(e);
            },
            Ok(p) => p,
        };
        proof {
            assert(i5 == i1 + 16);
        }
        match get_history(b, i5, n) {
            Err(e) => Err(e),
            Ok((old_keys, _)) => Ok(
                OsaPrincEnt { policy, aux_attributes, old_key_next, admin_history_kvno, old_keys },
            ),
        }
    }

    /// Writes the record.
    pub fn encode(&self) -> (r: Vec<u8>)
        ensures
            r@ == record_bytes(self@),
    {
        let mut out: Vec<u8> = Vec::new();
        put_be32(&mut out, OSA_ADB_PRINC_VERSION_1);
        match &self.policy {
            Some(p) => {
                let mut s: Vec<u8> = copy(p.as_str().as_bytes());
                s.push(0);
                put_octets(&mut out, s.as_slice());
            },
            None => {
                put_be32(&mut out, 0);
            },
        }
        proof {
            assert(out@ =~= be32(OSA_ADB_PRINC_VERSION_1) + policy_bytes(self@.policy));
        }
        put_be32(&mut out, self.aux_attributes);
        put_be32(&mut out, self.old_key_next);
        put_be32(&mut out, self.admin_history_kvno);
        put_be32(&mut out, count_of(self.old_keys.len()));
        let ghost before = out@;
        let ghost hist = history_views(self.old_keys@);
        let mut i: usize = 0;
        proof {
            assert(hist.take(0) =~= Seq::empty());
            assert(out@ =~= before + history_bytes(hist.take(0)));
        }
        while i < self.old_keys.len()
            invariant
                i <= self.old_keys@.len(),
                hist == history_views(self.old_keys@),
                out@ == before + history_bytes(hist.take(i as int)),
            decreases self.old_keys@.len() - i,
        {
            put_be32(&mut out, count_of(self.old_keys[i].len()));
            put_keys(&mut out, self.old_keys[i].as_slice());
            proof {
                lemma_history_push(hist.take(i as int), hist[i as int]);
                assert(hist.take(i + 1) =~= hist.take(i as int).push(hist[i as int]));
                assert(out@ =~= before + history_bytes(hist.take(i + 1)));
            }
            i = i + 1;
        }
        proof {
            assert(hist.take(hist.len() as int) =~= hist);
            assert(out@ =~= record_bytes(self@));
        }
        out
    }

    /// The record among tagged data: that of the first item of its type.
    pub fn from_tl(tl: &[TlData]) -> (r: Result<Option<OsaPrincEnt>, OsaError>)
        ensures
            match r {
                Ok(None) => forall|i: int| 0 <= i < tl@.len() ==> (#[trigger] tl@[i]).ty
                    != TL_KADM_DATA,
                Ok(Some(v)) => exists|i: int|
                    is_first_of_type(tl@, TL_KADM_DATA, i) && xdr_record(tl@[i].contents@) is Ok
                        && (xdr_record(tl@[i].contents@)->Ok_0).0 == v@,
                Err(e) => exists|i: int|
                    is_first_of_type(tl@, TL_KADM_DATA, i) && xdr_record(tl@[i].contents@)
                        == Err::<(OsaView, int), OsaError>(e),
            },
    {
        let mut i: usize = 0;
        while i < tl.len()
            invariant
                i <= tl@.len(),
                forall|k: int| 0 <= k < i ==> (#[trigger] tl@[k]).ty != TL_KADM_DATA,
            decreases tl@.len() - i,
        {
            if tl[i].ty == TL_KADM_DATA {
                proof {
                    assert(is_first_of_type(tl@, TL_KADM_DATA, i as int));
                }
                return match OsaPrincEnt::decode(tl[i].contents.as_slice()) {
                    Ok(v) => Ok(Some(v)),
                    Err(e) => Err(e),
                };
            }
            i = i + 1;
        }
        Ok(None)
    }

    /// The name of the bound policy.
    pub fn bound_policy(&self) -> (r: Option<&str>)
        ensures
            match r {
                Some(s) => self@.bound() == Some(s@),
                None => self@.bound() is None,
            },
    {
        if self.aux_attributes & KADM5_POLICY != 0 {
            match &self.policy {
                Some(p) => {
                    let s: &str = p.as_str();
                    if s.is_empty() {
                        None
                    } else {
                        Some(s)
                    }
                },
                None => None,
            }
        } else {
            None
        }
    }

    /// The history, oldest first: the place that is next to be taken holds
    /// the oldest old password.
    pub fn old_keys_oldest_first(&self) -> (r: Vec<&Vec<OsaKeyData>>)
        ensures
            r@.len() == self.old_keys@.len(),
            forall|i: int|
                0 <= i < r@.len() ==> *(#[trigger] r@[i]) == self.old_keys@[(self.old_key_next + i)
                    % (self.old_keys@.len() as int)],
    {
        let n: usize = self.old_keys.len();
        let mut out: Vec<&Vec<OsaKeyData>> = Vec::new();
        if n == 0 {
            return out;
        }
        let mut at: usize = ((self.old_key_next as u64) % (n as u64)) as usize;
        let mut i: usize = 0;
        while i < n
            invariant
                n == self.old_keys@.len(),
                n > 0,
                i <= n,
                at < n,
                at == (self.old_key_next + i) % (n as int),
                out@.len() == i,
                forall|k: int|
                    0 <= k < i ==> *(#[trigger] out@[k]) == self.old_keys@[(self.old_key_next + k)
                        % (n as int)],
            decreases n - i,
        {
            out.push(&self.old_keys[at]);
            proof {
                lemma_next_place(self.old_key_next + i, n as int);
            }
            at = if at + 1 == n {
                0
            } else {
                at + 1
            };
            i = i + 1;
        }
        out
    }
}

/// The item at `i` is the first of a type.
pub open spec fn is_first_of_type(tl: Seq<TlData>, ty: i32, i: int) -> bool {
    0 <= i < tl.len() && tl[i].ty == ty && forall|k: int| 0 <= k < i ==> (#[trigger] tl[k]).ty != ty
}

/// The place after a place in a ring.
proof fn lemma_next_place(x: int, n: int)
    requires
        n > 0,
    ensures
        (x + 1) % n == (if x % n + 1 == n {
            0
        } else {
            x % n + 1
        }),
{
    let q = x / n;
    let m = x % n;
    vstd::arithmetic::div_mod::lemma_fundamental_div_mod(x, n);
    vstd::arithmetic::div_mod::lemma_mod_bound(x, n);
    if m + 1 == n {
        assert(n * (q + 1) == n * q + n) by (nonlinear_arith);
        vstd::arithmetic::div_mod::lemma_fundamental_div_mod_converse(x + 1, n, q + 1, 0);
    } else {
        vstd::arithmetic::div_mod::lemma_fundamental_div_mod_converse(x + 1, n, q, m + 1);
    }
}

/// A record whose every length fits a word, and whose policy name holds no
/// NUL.
pub open spec fn writable(r: OsaView) -> bool {
    &&& match r.policy {
        Some(p) => encode_utf8(p).len() < u32::MAX && !encode_utf8(p).contains(0),
        None => true,
    }
    &&& r.old_keys.len() <= u32::MAX
    &&& forall|i: int|
        0 <= i < r.old_keys.len() ==> writable_keys(#[trigger] r.old_keys[i])
}

/// Keys whose every length fits a word.
pub open spec fn writable_keys(v: Seq<OsaKeyView>) -> bool {
    &&& v.len() <= u32::MAX
    &&& forall|i: int|
        0 <= i < v.len() ==> (#[trigger] v[i]).key.len() <= u32::MAX && v[i].salt.len() <= u32::MAX
}

/// `part` stands in `b` at `i`.
pub open spec fn stands_at(b: Seq<u8>, i: int, part: Seq<u8>) -> bool {
    0 <= i && i + part.len() <= b.len() && b.subrange(i, i + part.len()) == part
}

/// What stands in front of, and behind, a place in a part.
proof fn lemma_stands_split(b: Seq<u8>, i: int, x: Seq<u8>, y: Seq<u8>)
    requires
        stands_at(b, i, x + y),
    ensures
        stands_at(b, i, x),
        stands_at(b, i + x.len(), y),
{
    let w = b.subrange(i, i + (x + y).len());
    assert(w.subrange(0, x.len() as int) =~= x);
    assert(b.subrange(i, i + x.len()) =~= w.subrange(0, x.len() as int));
    assert(w.subrange(x.len() as int, w.len() as int) =~= y);
    assert(b.subrange(i + x.len(), i + x.len() + y.len()) =~= w.subrange(
        x.len() as int,
        w.len() as int,
    ));
}

/// A word that stands somewhere is read there.
proof fn lemma_int_read(b: Seq<u8>, i: int, v: u32)
    requires
        stands_at(b, i, be32(v)),
        b.len() <= usize::MAX,
    ensures
        xdr_int(b, i) == Ok::<(u32, int), OsaError>((v, i + 4)),
{
    lemma_be32_round_trip(v);
    let w = b.subrange(i, i + 4);
    assert(w[0] == b[i] && w[1] == b[i + 1] && w[2] == b[i + 2] && w[3] == b[i + 3]);
    assert(from_be32(b, i) == from_be32(w, 0));
}

/// An octet string that stands somewhere is read there.
proof fn lemma_octets_read(b: Seq<u8>, i: int, s: Seq<u8>)
    requires
        stands_at(b, i, put_octets_bytes(s)),
        b.len() <= usize::MAX,
        s.len() <= u32::MAX,
    ensures
        xdr_octets(b, i) == Ok::<(Seq<u8>, int), OsaError>(
            (s, i + put_octets_bytes(s).len()),
        ),
{
    let pad = Seq::new(padding(s.len() as int) as nat, |i: int| 0u8);
    let word = be32(s.len() as u32);
    lemma_stands_split(b, i, word + s, pad);
    lemma_stands_split(b, i, word, s);
    lemma_int_read(b, i, s.len() as u32);
}

/// A policy name that stands somewhere is read there.
proof fn lemma_policy_read(b: Seq<u8>, i: int, p: Option<Seq<char>>)
    requires
        stands_at(b, i, policy_bytes(p)),
        b.len() <= usize::MAX,
        p matches Some(t) ==> encode_utf8(t).len() < u32::MAX && !encode_utf8(t).contains(0),
    ensures
        xdr_text(b, i) == Ok::<(Option<Seq<char>>, int), OsaError>(
            (p, i + policy_bytes(p).len()),
        ),
{
    match p {
        Some(t) => {
            let s = encode_utf8(t).push(0);
            lemma_octets_read(b, i, s);
            assert(s.drop_last() =~= encode_utf8(t));
            vstd::utf8::encode_utf8_valid_utf8(t);
            vstd::utf8::encode_utf8_decode_utf8(t);
        },
        None => {
            lemma_int_read(b, i, 0);
            assert(b.subrange(i + 4, i + 4) =~= Seq::<u8>::empty());
        },
    }
}

/// A key that stands somewhere is read there.
proof fn lemma_key_read(b: Seq<u8>, i: int, k: OsaKeyView)
    requires
        stands_at(b, i, key_bytes(k)),
        b.len() <= usize::MAX,
        k.key.len() <= u32::MAX,
        k.salt.len() <= u32::MAX,
    ensures
        xdr_key(b, i) == Ok::<(OsaKeyView, int), OsaError>((k, i + key_bytes(k).len())),
{
    let a0 = be32(k.ver as u32);
    let a1 = a0 + be32(k.kvno as u32);
    let a2 = a1 + be32(word_of(k.key_type));
    let a3 = a2 + be32(word_of(k.salt_type));
    let a4 = a3 + be32(count_word(k.key.len()));
    let a5 = a4 + be32(count_word(k.salt.len()));
    let a6 = a5 + put_octets_bytes(k.key);
    lemma_stands_split(b, i, a6, put_octets_bytes(k.salt));
    lemma_stands_split(b, i, a5, put_octets_bytes(k.key));
    lemma_stands_split(b, i, a4, be32(count_word(k.salt.len())));
    lemma_stands_split(b, i, a3, be32(count_word(k.key.len())));
    lemma_stands_split(b, i, a2, be32(word_of(k.salt_type)));
    lemma_stands_split(b, i, a1, be32(word_of(k.key_type)));
    lemma_stands_split(b, i, a0, be32(k.kvno as u32));
    lemma_int_read(b, i, k.ver as u32);
    lemma_int_read(b, i + 4, k.kvno as u32);
    lemma_int_read(b, i + 8, word_of(k.key_type));
    lemma_int_read(b, i + 12, word_of(k.salt_type));
    lemma_int_read(b, i + 16, count_word(k.key.len()));
    lemma_int_read(b, i + 20, count_word(k.salt.len()));
    lemma_octets_read(b, i + 24, k.key);
    lemma_octets_read(b, i + 24 + put_octets_bytes(k.key).len(), k.salt);
}

/// Keys that stand somewhere are read there.
proof fn lemma_keys_read(b: Seq<u8>, i: int, v: Seq<OsaKeyView>)
    requires
        stands_at(b, i, keys_bytes(v)),
        b.len() <= usize::MAX,
        writable_keys(v),
    ensures
        xdr_keys(b, i, v.len()) == Ok::<(Seq<OsaKeyView>, int), OsaError>(
            (v, i + keys_bytes(v).len()),
        ),
    decreases v.len(),
{
    if v.len() == 0 {
        assert(v =~= Seq::empty());
    } else {
        let rest = v.drop_first();
        lemma_stands_split(b, i, key_bytes(v[0]), keys_bytes(rest));
        lemma_key_read(b, i, v[0]);
        assert forall|k: int| 0 <= k < rest.len() implies (#[trigger] rest[k]).key.len() <= u32::MAX
            && rest[k].salt.len() <= u32::MAX by {
            assert(rest[k] == v[k + 1]);
        }
        lemma_keys_read(b, i + key_bytes(v[0]).len(), rest);
        assert(seq![v[0]] + rest =~= v);
    }
}

/// A history that stands somewhere is read there.
#[verifier::spinoff_prover]
#[verifier::rlimit(60)]
proof fn lemma_history_read(b: Seq<u8>, i: int, v: Seq<Seq<OsaKeyView>>)
    requires
        stands_at(b, i, history_bytes(v)),
        b.len() <= usize::MAX,
        forall|k: int| 0 <= k < v.len() ==> writable_keys(#[trigger] v[k]),
    ensures
        xdr_history(b, i, v.len()) == Ok::<(Seq<Seq<OsaKeyView>>, int), OsaError>(
            (v, i + history_bytes(v).len()),
        ),
    decreases v.len(),
{
    if v.len() == 0 {
        assert(v =~= Seq::empty());
    } else {
        let rest = v.drop_first();
        let word = be32(count_word(v[0].len()));
        assert(writable_keys(v[0]));
        lemma_stands_split(b, i, word + keys_bytes(v[0]), history_bytes(rest));
        lemma_stands_split(b, i, word, keys_bytes(v[0]));
        lemma_int_read(b, i, count_word(v[0].len()));
        lemma_keys_read(b, i + 4, v[0]);
        assert forall|k: int| 0 <= k < rest.len() implies writable_keys(#[trigger] rest[k]) by {
            assert(rest[k] == v[k + 1]);
        }
        lemma_history_read(b, i + 4 + keys_bytes(v[0]).len(), rest);
        assert(seq![v[0]] + rest =~= v);
    }
}

/// Where each of seven parts stands in what they make together.
proof fn lemma_parts_stand(
    b: Seq<u8>,
    p0: Seq<u8>,
    p1: Seq<u8>,
    p2: Seq<u8>,
    p3: Seq<u8>,
    p4: Seq<u8>,
    p5: Seq<u8>,
    p6: Seq<u8>,
)
    requires
        b == p0 + p1 + p2 + p3 + p4 + p5 + p6,
    ensures
        stands_at(b, 0, p0),
        stands_at(b, p0.len() as int, p1),
        stands_at(b, (p0.len() + p1.len()) as int, p2),
        stands_at(b, (p0.len() + p1.len() + p2.len()) as int, p3),
        stands_at(b, (p0.len() + p1.len() + p2.len() + p3.len()) as int, p4),
        stands_at(b, (p0.len() + p1.len() + p2.len() + p3.len() + p4.len()) as int, p5),
        stands_at(b, (p0.len() + p1.len() + p2.len() + p3.len() + p4.len() + p5.len()) as int, p6),
        b.len() == p0.len() + p1.len() + p2.len() + p3.len() + p4.len() + p5.len() + p6.len(),
{
    assert(b.subrange(0, b.len() as int) =~= b);
    lemma_stands_split(b, 0, p0 + p1 + p2 + p3 + p4 + p5, p6);
    lemma_stands_split(b, 0, p0 + p1 + p2 + p3 + p4, p5);
    lemma_stands_split(b, 0, p0 + p1 + p2 + p3, p4);
    lemma_stands_split(b, 0, p0 + p1 + p2, p3);
    lemma_stands_split(b, 0, p0 + p1, p2);
    lemma_stands_split(b, 0, p0, p1);
}

/// Reading what was written gives the record back, and ends where it ends.
#[verifier::spinoff_prover]
#[verifier::rlimit(60)]
pub proof fn law_record_round_trip(r: OsaView)
    requires
        writable(r),
        record_bytes(r).len() <= usize::MAX,
    ensures
        xdr_record(record_bytes(r)) == Ok::<(OsaView, int), OsaError>(
            (r, record_bytes(r).len() as int),
        ),
{
    let b = record_bytes(r);
    lemma_parts_stand(
        b,
        be32(OSA_ADB_PRINC_VERSION_1),
        policy_bytes(r.policy),
        be32(r.aux_attributes),
        be32(r.old_key_next),
        be32(r.admin_history_kvno),
        be32(count_word(r.old_keys.len())),
        history_bytes(r.old_keys),
    );
    let i = 4 + policy_bytes(r.policy).len() as int;
    assert(be32(OSA_ADB_PRINC_VERSION_1).len() == 4 && be32(r.aux_attributes).len() == 4 && be32(
        r.old_key_next,
    ).len() == 4 && be32(r.admin_history_kvno).len() == 4 && be32(
        count_word(r.old_keys.len()),
    ).len() == 4);
    lemma_record_reads(b, i, r);
}

/// A record whose parts stand in their places is read.
proof fn lemma_record_reads(b: Seq<u8>, i: int, r: OsaView)
    requires
        writable(r),
        b.len() <= usize::MAX,
        i == 4 + policy_bytes(r.policy).len(),
        b.len() == i + 16 + history_bytes(r.old_keys).len(),
        stands_at(b, 0, be32(OSA_ADB_PRINC_VERSION_1)),
        stands_at(b, 4, policy_bytes(r.policy)),
        stands_at(b, i, be32(r.aux_attributes)),
        stands_at(b, i + 4, be32(r.old_key_next)),
        stands_at(b, i + 8, be32(r.admin_history_kvno)),
        stands_at(b, i + 12, be32(count_word(r.old_keys.len()))),
        stands_at(b, i + 16, history_bytes(r.old_keys)),
    ensures
        xdr_record(b) == Ok::<(OsaView, int), OsaError>((r, b.len() as int)),
{
    lemma_int_read(b, 0, OSA_ADB_PRINC_VERSION_1);
    lemma_policy_read(b, 4, r.policy);
    lemma_int_read(b, i, r.aux_attributes);
    lemma_int_read(b, i + 4, r.old_key_next);
    lemma_int_read(b, i + 8, r.admin_history_kvno);
    lemma_int_read(b, i + 12, count_word(r.old_keys.len()));
    lemma_history_read(b, i + 16, r.old_keys);
}

/// What is read out of a prefix is read out of the whole, and ends in the
/// prefix.
proof fn lemma_octets_prefix(b: Seq<u8>, m: int, i: int)
    requires
        0 <= m <= b.len(),
        0 <= i,
    ensures
        xdr_int(b.take(m), i) is Ok ==> xdr_int(b, i) == xdr_int(b.take(m), i) && (xdr_int(
            b,
            i,
        )->Ok_0).1 <= m,
        xdr_octets(b.take(m), i) is Ok ==> xdr_octets(b, i) == xdr_octets(b.take(m), i) && i <= (
        xdr_octets(b, i)->Ok_0).1 <= m,
{
    let a = b.take(m);
    if xdr_int(a, i) is Ok {
        assert(from_be32(a, i) == from_be32(b, i));
    }
    if xdr_octets(a, i) is Ok {
        let n = (xdr_int(a, i)->Ok_0).0;
        assert(a.subrange(i + 4, i + 4 + n) =~= b.subrange(i + 4, i + 4 + n));
    }
}

/// The same of keys.
proof fn lemma_keys_prefix(b: Seq<u8>, m: int, i: int, n: nat)
    requires
        0 <= m <= b.len(),
        0 <= i <= m,
    ensures
        xdr_keys(b.take(m), i, n) is Ok ==> xdr_keys(b, i, n) == xdr_keys(b.take(m), i, n) && i <= (
        xdr_keys(b, i, n)->Ok_0).1 <= m,
    decreases n,
{
    let a = b.take(m);
    if n > 0 && xdr_keys(a, i, n) is Ok {
        lemma_octets_prefix(b, m, i);
        lemma_octets_prefix(b, m, i + 4);
        lemma_octets_prefix(b, m, i + 8);
        lemma_octets_prefix(b, m, i + 12);
        lemma_octets_prefix(b, m, i + 16);
        lemma_octets_prefix(b, m, i + 20);
        lemma_octets_prefix(b, m, i + 24);
        let j = (xdr_octets(a, i + 24)->Ok_0).1;
        assert(xdr_key(a, i) is Ok);
        assert(key_tail(a, i + 16) is Ok);
        lemma_octets_prefix(b, m, j);
        let k = (xdr_key(a, i)->Ok_0).1;
        assert(xdr_key(b, i) == xdr_key(a, i));
        lemma_keys_prefix(b, m, k, (n - 1) as nat);
    }
}

/// The same of a history.
proof fn lemma_history_prefix(b: Seq<u8>, m: int, i: int, n: nat)
    requires
        0 <= m <= b.len(),
        0 <= i <= m,
    ensures
        xdr_history(b.take(m), i, n) is Ok ==> xdr_history(b, i, n) == xdr_history(b.take(m), i, n)
            && i <= (xdr_history(b, i, n)->Ok_0).1 <= m,
    decreases n,
{
    let a = b.take(m);
    if n > 0 && xdr_history(a, i, n) is Ok {
        lemma_octets_prefix(b, m, i);
        let count = (xdr_int(a, i)->Ok_0).0;
        lemma_keys_prefix(b, m, i + 4, count as nat);
        let k = (xdr_keys(a, i + 4, count as nat)->Ok_0).1;
        lemma_history_prefix(b, m, k, (n - 1) as nat);
    }
}

/// A record that is cut short anywhere is refused.
pub proof fn law_truncated_record_is_refused(r: OsaView, m: int)
    requires
        writable(r),
        record_bytes(r).len() <= usize::MAX,
        0 <= m < record_bytes(r).len(),
    ensures
        xdr_record(record_bytes(r).take(m)) is Err,
{
    let b = record_bytes(r);
    law_record_round_trip(r);
    let a = b.take(m);
    if xdr_record(a) is Ok {
        lemma_octets_prefix(b, m, 0);
        lemma_octets_prefix(b, m, 4);
        assert(xdr_text(a, 4) is Ok);
        assert(xdr_text(b, 4) == xdr_text(a, 4));
        let i = (xdr_text(a, 4)->Ok_0).1;
        lemma_octets_prefix(b, m, i);
        lemma_octets_prefix(b, m, i + 4);
        lemma_octets_prefix(b, m, i + 8);
        lemma_octets_prefix(b, m, i + 12);
        let n = (xdr_int(a, i + 12)->Ok_0).0;
        lemma_history_prefix(b, m, i + 16, n as nat);
        assert(xdr_record(a) == xdr_record(b));
    }
}

/// The key of an old password made out of a key: `enc` is the key in the
/// history key.
pub open spec fn history_key(k: KeyView, enc: Seq<u8>) -> OsaKeyView {
    let salted = k.salt_type matches Some(t) && t > 0 && k.kdb_salt is Some;
    OsaKeyView {
        ver: if salted {
            2
        } else {
            1
        },
        kvno: if k.kvno <= 0xffff {
            k.kvno as u16
        } else {
            0xffff
        },
        key_type: short_or_zero(k.etype),
        salt_type: if salted {
            short_or_zero(k.salt_type->0)
        } else {
            0
        },
        key: enc,
        salt: if salted {
            k.kdb_salt->0
        } else {
            Seq::empty()
        },
    }
}

/// The number as a short one; zero where it is none.
pub open spec fn short_or_zero(v: i32) -> i16 {
    if -0x8000 <= v <= 0x7fff {
        v as i16
    } else {
        0
    }
}

/// The number as a short one.
fn to_short(v: i32) -> (r: i16)
    ensures
        r == short_or_zero(v),
{
    if -0x8000 <= v && v <= 0x7fff {
        v as i16
    } else {
        0
    }
}

/// The history entry of a password: its keys, each encrypted in the history
/// key. `encrypted` holds what encrypting each key gave; there is no entry
/// where one of them failed.
pub fn history_entry(keys: &[KeyEntry], encrypted: Vec<Option<Vec<u8>>>) -> (r: Option<
    Vec<OsaKeyData>,
>)
    requires
        encrypted@.len() == keys@.len(),
    ensures
        match r {
            Some(v) => {
                &&& forall|i: int| 0 <= i < keys@.len() ==> (#[trigger] encrypted@[i]) is Some
                &&& v@.len() == keys@.len()
                &&& forall|i: int|
                    0 <= i < keys@.len() ==> (#[trigger] v@[i])@ == history_key(
                        keys@[i]@,
                        (encrypted@[i]->0)@,
                    )
            },
            None => exists|i: int| 0 <= i < keys@.len() && (#[trigger] encrypted@[i]) is None,
        },
{
    let mut out: Vec<OsaKeyData> = Vec::new();
    let mut i: usize = 0;
    while i < keys.len()
        invariant
            i <= keys@.len(),
            encrypted@.len() == keys@.len(),
            out@.len() == i,
            forall|k: int| 0 <= k < i ==> (#[trigger] encrypted@[k]) is Some,
            forall|k: int|
                0 <= k < i ==> (#[trigger] out@[k])@ == history_key(
                    keys@[k]@,
                    (encrypted@[k]->0)@,
                ),
        decreases keys@.len() - i,
    {
        let enc: Vec<u8> = match &encrypted[i] {
            Some(e) => copy(e.as_slice()),
            None => {
                return None;
            },
        };
        let k: &KeyEntry = &keys[i];
        let (ver, salt_ty, salt): (u16, i32, Vec<u8>) = match (k.salt_type, &k.kdb_salt) {
            (Some(t), Some(s)) => if t > 0 {
                (2, t, copy(s.as_slice()))
            } else {
                (1, 0, Vec::new())
            },
            _ => (1, 0, Vec::new()),
        };
        let kvno: u16 = if k.kvno <= 0xffff {
            k.kvno as u16
        } else {
            0xffff
        };
        let one = OsaKeyData {
            ver,
            kvno,
            types: [to_short(k.etype), to_short(salt_ty)],
            contents: [enc, salt],
        };
        proof {
            assert(one@ =~= history_key(keys@[i as int]@, (encrypted@[i as int]->0)@));
        }
        out.push(one);
        i = i + 1;
    }
    Some(out)
}

/// The key that a key of an old password stands for: `raw` is what
/// decrypting it gave, where it could be decrypted.
pub open spec fn history_key_of(k: OsaKeyView, raw: Seq<u8>) -> KeyView {
    KeyView {
        etype: k.key_type as i32,
        kvno: k.kvno as u32,
        key: raw,
        salt_type: if k.ver >= 2 {
            Some(k.salt_type as i32)
        } else {
            None
        },
        kdb_salt: if k.ver >= 2 {
            Some(k.salt)
        } else {
            None
        },
    }
}

/// The keys of an old password that could be decrypted.
pub open spec fn readable_keys(
    entry: Seq<OsaKeyView>,
    raw: Seq<Option<Seq<u8>>>,
) -> Seq<KeyView>
    decreases entry.len(),
{
    if entry.len() == 0 || raw.len() == 0 {
        Seq::empty()
    } else {
        let front = readable_keys(entry.drop_last(), raw.drop_last());
        match raw.last() {
            Some(r) => front.push(history_key_of(entry.last(), r)),
            None => front,
        }
    }
}

/// The octets of optional keys.
pub open spec fn raw_views(v: Seq<Option<Vec<u8>>>) -> Seq<Option<Seq<u8>>> {
    v.map_values(
        |o: Option<Vec<u8>>|
            match o {
                Some(b) => Some(b@),
                None => None::<Seq<u8>>,
            },
    )
}

/// The keys of an old password. `decrypted` holds for each what decrypting it
/// gave; one that does not decrypt to a key of its type is left out.
pub fn decrypt_entry(entry: &[OsaKeyData], decrypted: &[Option<Vec<u8>>]) -> (r: Vec<KeyEntry>)
    requires
        entry@.len() == decrypted@.len(),
    ensures
        key_views(r@) == readable_keys(osa_key_views(entry@), raw_views(decrypted@)),
{
    let ghost ev = osa_key_views(entry@);
    let ghost rv = raw_views(decrypted@);
    let mut out: Vec<KeyEntry> = Vec::new();
    let mut i: usize = 0;
    proof {
        assert(key_views(out@) =~= readable_keys(ev.take(0), rv.take(0)));
    }
    while i < entry.len()
        invariant
            i <= entry@.len(),
            entry@.len() == decrypted@.len(),
            ev == osa_key_views(entry@),
            rv == raw_views(decrypted@),
            key_views(out@) == readable_keys(ev.take(i as int), rv.take(i as int)),
        decreases entry@.len() - i,
    {
        let ghost before = out@;
        proof {
            assert(ev.take(i + 1).drop_last() =~= ev.take(i as int));
            assert(rv.take(i + 1).drop_last() =~= rv.take(i as int));
            assert(ev.take(i + 1).last() == entry@[i as int]@);
        }
        match &decrypted[i] {
            Some(raw) => {
                let k: &OsaKeyData = &entry[i];
                let salted: bool = k.ver >= 2;
                let one = KeyEntry {
                    etype: k.types[0] as i32,
                    kvno: k.kvno as u32,
                    key: copy(raw.as_slice()),
                    salt_type: if salted {
                        Some(k.types[1] as i32)
                    } else {
                        None
                    },
                    kdb_salt: if salted {
                        Some(copy(k.contents[1].as_slice()))
                    } else {
                        None
                    },
                };
                proof {
                    assert(one@ =~= history_key_of(entry@[i as int]@, raw@));
                }
                out.push(one);
                proof {
                    assert(key_views(out@) =~= key_views(before).push(one@));
                }
            },
            None => {},
        }
        i = i + 1;
    }
    proof {
        assert(ev.take(ev.len() as int) =~= ev);
        assert(rv.take(rv.len() as int) =~= rv);
    }
    out
}

/// A key written to the history reads back with its type, its version number
/// and its salt, where those fit the record and the salt type is no default.
pub proof fn law_history_key_round_trip(k: KeyView, enc: Seq<u8>, raw: Seq<u8>)
    requires
        -0x8000 <= k.etype <= 0x7fff,
        k.kvno <= 0xffff,
        match (k.salt_type, k.kdb_salt) {
            (Some(t), Some(_)) => 0 < t <= 0x7fff,
            (None, None) => true,
            _ => false,
        },
    ensures
        history_key_of(history_key(k, enc), raw) == (KeyView { key: raw, ..k }),
{
}

/// A key of an old password keeps its encrypted octets. It keeps its version
/// number up to the largest short one, and its type where a short number holds
/// it; a salt is written where the key has one of a type above zero, and only
/// then.
pub proof fn law_history_key_is_written(k: KeyView, enc: Seq<u8>)
    ensures
        history_key(k, enc).key == enc,
        history_key(k, enc).kvno <= k.kvno,
        history_key(k, enc).kvno < 0xffff ==> history_key(k, enc).kvno == k.kvno,
        history_key(k, enc).key_type != 0 ==> history_key(k, enc).key_type == k.etype,
        -0x8000 <= k.etype <= 0x7fff ==> history_key(k, enc).key_type == k.etype,
        history_key(k, enc).ver == 2 <==> match (k.salt_type, k.kdb_salt) {
            (Some(t), Some(_)) => t > 0,
            _ => false,
        },
        history_key(k, enc).ver == 2 ==> Some(history_key(k, enc).salt) == k.kdb_salt,
        history_key(k, enc).ver != 2 ==> history_key(k, enc).ver == 1 && history_key(
            k,
            enc,
        ).salt_type == 0 && history_key(k, enc).salt.len() == 0,
{
}

/// A key of an old password that could not be decrypted is left out, and one
/// that could be stands behind those in front of it, with its type, its
/// version number, and its salt where it is of the second version.
pub proof fn law_decrypted_keys_are_read(
    entry: Seq<OsaKeyView>,
    raw: Seq<Option<Seq<u8>>>,
    k: OsaKeyView,
    r: Seq<u8>,
)
    requires
        entry.len() == raw.len(),
    ensures
        readable_keys(entry.push(k), raw.push(None)) == readable_keys(entry, raw),
        readable_keys(entry.push(k), raw.push(Some(r))).len() == readable_keys(entry, raw).len()
            + 1,
        readable_keys(entry.push(k), raw.push(Some(r))).drop_last() == readable_keys(entry, raw),
        ({
            let got = readable_keys(entry.push(k), raw.push(Some(r))).last();
            &&& got.key == r
            &&& got.etype == k.key_type
            &&& got.kvno == k.kvno
            &&& k.ver >= 2 ==> got.salt_type == Some(k.salt_type as i32) && got.kdb_salt == Some(
                k.salt,
            )
            &&& k.ver < 2 ==> got.salt_type is None && got.kdb_salt is None
        }),
{
    assert(entry.push(k).drop_last() =~= entry);
    assert(raw.push(None).drop_last() =~= raw);
    assert(raw.push(Some(r)).drop_last() =~= raw);
    assert(readable_keys(entry, raw).push(history_key_of(k, r)).drop_last() =~= readable_keys(
        entry,
        raw,
    ));
}

/// Octets are filled up to a multiple of four, with fewer than four more.
pub proof fn law_padding_fills_a_word(n: nat)
    ensures
        0 <= padding(n as int) < 4,
        (n + padding(n as int)) % 4 == 0,
{
}

/// A word is a short number where it is one with its sign carried on, and the
/// two words of a number are the same.
pub proof fn law_short_number_of_a_word(v: u32, t: i16)
    ensures
        short_of(v) == Some(t) <==> (v == t || v == t + 0x1_0000_0000),
        word_of(t) == t || word_of(t) == t + 0x1_0000_0000,
{
}

/// A record is of one version, which its first four octets name; another is
/// refused with its number, whatever follows.
pub proof fn law_other_version_is_refused(b: Seq<u8>, v: u32)
    requires
        4 <= b.len() <= usize::MAX,
        b.take(4) == be32(v),
    ensures
        v != 0x1234_5c01 ==> xdr_record(b) == Err::<(OsaView, int), OsaError>(OsaError::Version(v)),
        v == 0x1234_5c01 ==> !(xdr_record(b) matches Err(OsaError::Version(_))),
{
    lemma_be32_round_trip(v);
    assert(b.subrange(0, 4) =~= b.take(4));
    lemma_int_read(b, 0, v);
    if v == 0x1234_5c01 {
        if let Ok((policy, i)) = xdr_text(b, 4) {
            if let Ok((n, _)) = xdr_int(b, i + 12) {
                lemma_history_error(b, i + 16, n as nat);
            }
        }
    }
}

/// Nothing behind the version is refused as another version.
proof fn lemma_history_error(b: Seq<u8>, i: int, n: nat)
    ensures
        !(xdr_history(b, i, n) matches Err(OsaError::Version(_))),
    decreases n,
{
    if n > 0 {
        if let Ok((count, j)) = xdr_int(b, i) {
            lemma_keys_error(b, j, count as nat);
            if let Ok((_, k)) = xdr_keys(b, j, count as nat) {
                lemma_history_error(b, k, (n - 1) as nat);
            }
        }
    }
}

/// No key is refused as another version.
proof fn lemma_keys_error(b: Seq<u8>, i: int, n: nat)
    ensures
        !(xdr_keys(b, i, n) matches Err(OsaError::Version(_))),
    decreases n,
{
    if n > 0 {
        if let Ok((_, j)) = xdr_key(b, i) {
            lemma_keys_error(b, j, (n - 1) as nat);
        }
    }
}

/// A policy name that is there ends in a NUL and holds no other: octets that do
/// not are refused.
pub proof fn law_policy_name_ends_in_nul(s: Seq<u8>)
    requires
        0 < s.len() <= u32::MAX,
        put_octets_bytes(s).len() <= usize::MAX,
    ensures
        xdr_text(put_octets_bytes(s), 0) is Ok ==> s.last() == 0 && forall|i: int|
            0 <= i < s.len() - 1 ==> #[trigger] s[i] != 0,
        !(xdr_text(put_octets_bytes(s), 0) matches Ok((None, _))),
{
    assert(put_octets_bytes(s).subrange(0, put_octets_bytes(s).len() as int)
        =~= put_octets_bytes(s));
    lemma_octets_read(put_octets_bytes(s), 0, s);
    if xdr_text(put_octets_bytes(s), 0) is Ok {
        assert forall|i: int| 0 <= i < s.len() - 1 implies #[trigger] s[i] != 0 by {
            assert(s.drop_last()[i] == s[i]);
        }
    }
}

} // verus!
