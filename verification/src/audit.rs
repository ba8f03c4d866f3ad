//! What is recorded of each request: the line of the log, and the calls of the
//! audit module.

pub mod json;
pub mod record;

use crate::bytes::copy;
use crate::msg::HostAddress;
use crate::name::{NameView, PrincipalName};
use crate::num::{decimal, decimal_int, push_decimal, push_signed};
use crate::outside::{random_octets, sha256, sha256_digest};
use crate::osa::text_view;
use vstd::prelude::*;
use vstd::string::*;

verus! {

/// Authenticating the request and the client.
pub const AUTHN_REQ_CL: i32 = 1;

/// Determining the service principal.
pub const SRVC_PRINC: i32 = 2;

/// Encrypting the reply.
pub const ENCR_REP: i32 = 5;

/// Size of the buffer of a request identifier, with the NUL behind it.
pub const REQID_LEN: usize = 32;

/// Characters of a request identifier.
pub const REQID_CHARS: usize = 31;

/// An upper-case hexadecimal digit.
pub open spec fn upper_digit(d: int) -> char {
    if d == 10 {
        'A'
    } else if d == 11 {
        'B'
    } else if d == 12 {
        'C'
    } else if d == 13 {
        'D'
    } else if d == 14 {
        'E'
    } else if d == 15 {
        'F'
    } else {
        crate::num::digit_char(d)
    }
}

/// Octets in upper-case hexadecimal.
pub open spec fn upper_hex(b: Seq<u8>) -> Seq<char>
    decreases b.len(),
{
    if b.len() == 0 {
        Seq::empty()
    } else {
        upper_hex(b.drop_last()) + seq![
            upper_digit(b.last() as int / 16),
            upper_digit(b.last() as int % 16),
        ]
    }
}

/// An upper-case hexadecimal digit.
fn upper(d: u8) -> (r: char)
    requires
        d < 16,
    ensures
        r == upper_digit(d as int),
{
    match d {
        10 => 'A',
        11 => 'B',
        12 => 'C',
        13 => 'D',
        14 => 'E',
        15 => 'F',
        _ => crate::num::digit(d),
    }
}

/// Octets in upper-case hexadecimal.
pub fn upper_hex_string(b: &[u8]) -> (r: String)
    ensures
        r@ == upper_hex(b@),
{
    let mut out = String::new();
    let mut i: usize = 0;
    proof {
        assert(out@ =~= upper_hex(b@.take(0)));
    }
    while i < b.len()
        invariant
            i <= b@.len(),
            out@ == upper_hex(b@.take(i as int)),
        decreases b@.len() - i,
    {
        out.push(upper(b[i] / 16));
        out.push(upper(b[i] % 16));
        proof {
            assert(b@.take(i + 1).drop_last() =~= b@.take(i as int));
            assert(out@ =~= upper_hex(b@.take(i + 1)));
        }
        i = i + 1;
    }
    proof {
        assert(b@.take(b@.len() as int) =~= b@);
    }
    out
}

/// How long octets are in hexadecimal.
proof fn lemma_upper_hex_len(b: Seq<u8>)
    ensures
        upper_hex(b).len() == 2 * b.len(),
    decreases b.len(),
{
    if b.len() > 0 {
        lemma_upper_hex_len(b.drop_last());
    }
}

/// The identifier of a ticket: the SHA-256 hash of its ciphertext.
pub fn make_tkt_id(ciphertext: &[u8]) -> (r: String)
    ensures
        r@ == upper_hex(sha256_digest(ciphertext@)),
        r@.len() == 64,
{
    let hash = sha256(ciphertext);
    proof {
        lemma_upper_hex_len(hash@);
    }
    upper_hex_string(hash.as_slice())
}

/// The letter or digit for a number below 62.
pub open spec fn alphanumeric(d: int) -> char {
    if d < 10 {
        (48 + d) as char
    } else if d < 36 {
        (97 + d - 10) as char
    } else {
        (65 + d - 36) as char
    }
}

/// A letter or a digit.
pub open spec fn is_alphanumeric(c: char) -> bool {
    let n = c as u32;
    48 <= n <= 57 || 65 <= n <= 90 || 97 <= n <= 122
}

/// The letter or digit for a number.
fn letter(d: u8) -> (r: char)
    requires
        d < 62,
    ensures
        r == alphanumeric(d as int),
        is_alphanumeric(r),
{
    if d < 10 {
        (48 + d) as char
    } else if d < 36 {
        (97 + (d - 10)) as char
    } else {
        (65 + (d - 36)) as char
    }
}

/// The identifier that octets make: for each the letter or digit of its
/// remainder by 62.
pub open spec fn id_text(b: Seq<u8>) -> Seq<char> {
    b.map_values(|x: u8| alphanumeric(x as int % 62))
}

/// The identifier that octets make.
pub fn req_id_of(b: &[u8]) -> (r: String)
    ensures
        r@ == id_text(b@),
        forall|i: int| 0 <= i < r@.len() ==> is_alphanumeric(#[trigger] r@[i]),
{
    let ghost want = id_text(b@);
    let mut out = String::new();
    let mut i: usize = 0;
    proof {
        assert(out@ =~= want.take(0));
    }
    while i < b.len()
        invariant
            i <= b@.len(),
            want == id_text(b@),
            out@ == want.take(i as int),
            forall|k: int| 0 <= k < out@.len() ==> is_alphanumeric(#[trigger] out@[k]),
        decreases b@.len() - i,
    {
        out.push(letter(b[i] % 62));
        proof {
            assert(out@ =~= want.take(i + 1));
        }
        i = i + 1;
    }
    proof {
        assert(want.take(want.len() as int) =~= want);
    }
    out
}

/// A fresh request identifier; one of zeros where the system has no random
/// numbers.
pub fn new_req_id() -> (r: String)
    ensures
        r@.len() == REQID_CHARS,
        forall|i: int| 0 <= i < r@.len() ==> is_alphanumeric(#[trigger] r@[i]),
        exists|b: Seq<u8>| b.len() == REQID_CHARS && r@ == #[trigger] id_text(b),
{
    let b: Vec<u8> = match random_octets(REQID_CHARS) {
        Ok(v) => v,
        Err(_) => crate::bytes::zeros(REQID_CHARS),
    };
    req_id_of(b.as_slice())
}

/// An encryption type that keys can have: its name, and whether it is
/// deprecated.
pub open spec fn known_name(etype: i32) -> Option<(Seq<char>, bool)> {
    match etype {
        16 => Some(("des3-cbc-sha1"@, true)),
        17 => Some(("aes128-cts-hmac-sha1-96"@, false)),
        18 => Some(("aes256-cts-hmac-sha1-96"@, false)),
        19 => Some(("aes128-cts-hmac-sha256-128"@, false)),
        20 => Some(("aes256-cts-hmac-sha384-192"@, false)),
        23 => Some(("arcfour-hmac"@, true)),
        _ => None,
    }
}

/// An encryption type that keys can have.
fn known(etype: i32) -> (r: Option<(&'static str, bool)>)
    ensures
        match r {
            Some((n, d)) => known_name(etype) == Some((n@, d)),
            None => known_name(etype) is None,
        },
{
    match etype {
        16 => Some(("des3-cbc-sha1", true)),
        17 => Some(("aes128-cts-hmac-sha1-96", false)),
        18 => Some(("aes256-cts-hmac-sha1-96", false)),
        19 => Some(("aes128-cts-hmac-sha256-128", false)),
        20 => Some(("aes256-cts-hmac-sha384-192", false)),
        23 => Some(("arcfour-hmac", true)),
        _ => None,
    }
}

/// The name of a type that is no key type: an algorithm of CMS, or one of the
/// oldest types.
pub open spec fn unsupported_name(etype: i32) -> Seq<char> {
    match etype {
        9 => "id-dsa-with-sha1-CmsOID"@,
        10 => "md5WithRSAEncryption-CmsOID"@,
        11 => "sha-1WithRSAEncryption-CmsOID"@,
        12 => "rc2-cbc-EnvOID"@,
        13 => "rsaEncryption-EnvOID"@,
        14 => "id-RSAES-OAEP-EnvOID"@,
        15 => "des-ede3-cbc-EnvOID"@,
        1 => "des-cbc-crc"@,
        2 => "des-cbc-md4"@,
        3 => "des-cbc-md5"@,
        4 => "des-cbc-raw"@,
        8 => "des-hmac-sha1"@,
        _ => Seq::empty(),
    }
}

/// The name of a type that is no key type.
fn unsupported(etype: i32) -> (r: &'static str)
    ensures
        r@ == unsupported_name(etype),
{
    proof {
        reveal_strlit("");
        assert(""@ =~= Seq::<char>::empty());
    }
    match etype {
        9 => "id-dsa-with-sha1-CmsOID",
        10 => "md5WithRSAEncryption-CmsOID",
        11 => "sha-1WithRSAEncryption-CmsOID",
        12 => "rc2-cbc-EnvOID",
        13 => "rsaEncryption-EnvOID",
        14 => "id-RSAES-OAEP-EnvOID",
        15 => "des-ede3-cbc-EnvOID",
        1 => "des-cbc-crc",
        2 => "des-cbc-md4",
        3 => "des-cbc-md5",
        4 => "des-cbc-raw",
        8 => "des-hmac-sha1",
        _ => "",
    }
}

/// The name of an encryption type in the log.
pub open spec fn logged_name(etype: i32) -> Seq<char> {
    if etype == 6 {
        "DEPRECATED:des3-cbc-raw"@
    } else if etype == 24 {
        "DEPRECATED:arcfour-hmac-exp"@
    } else {
        match known_name(etype) {
            Some((n, deprecated)) => if deprecated {
                "DEPRECATED:"@ + n
            } else {
                n
            },
            None => "UNSUPPORTED:"@ + unsupported_name(etype),
        }
    }
}

/// The name of an encryption type in the log.
pub fn enctype_name(etype: i32) -> (r: String)
    ensures
        r@ == logged_name(etype),
{
    if etype == 6 {
        return "DEPRECATED:des3-cbc-raw".to_owned();
    }
    if etype == 24 {
        return "DEPRECATED:arcfour-hmac-exp".to_owned();
    }
    match known(etype) {
        Some((n, deprecated)) => if deprecated {
            crate::text::concat("DEPRECATED:", n)
        } else {
            n.to_owned()
        },
        None => crate::text::concat("UNSUPPORTED:", unsupported(etype)),
    }
}

/// An encryption type in the log: its name, and its number in brackets.
pub open spec fn named_number(etype: i32) -> Seq<char> {
    logged_name(etype) + seq!['('] + decimal_int(etype as int) + seq![')']
}

/// Adds an encryption type.
fn push_named(out: &mut String, etype: i32)
    ensures
        final(out)@ == old(out)@ + named_number(etype),
{
    let n = enctype_name(etype);
    out.append(n.as_str());
    out.push('(');
    push_signed(out, etype as i64);
    out.push(')');
    proof {
        assert(out@ =~= old(out)@ + named_number(etype));
    }
}

/// Encryption types with a comma and a space between each two.
pub open spec fn named_list(v: Seq<i32>) -> Seq<char>
    decreases v.len(),
{
    if v.len() == 0 {
        Seq::empty()
    } else if v.len() == 1 {
        named_number(v[0])
    } else {
        named_list(v.drop_last()) + seq![',', ' '] + named_number(v.last())
    }
}

/// How many encryption types a request has, and which.
pub open spec fn ktypes_text(v: Seq<i32>) -> Seq<char> {
    decimal(v.len()) + " etypes {"@ + named_list(v) + seq!['}']
}

/// How many encryption types a request has, and which.
pub fn ktypes2str(etypes: &[i32]) -> (r: String)
    ensures
        r@ == ktypes_text(etypes@),
{
    let mut out = String::new();
    push_decimal(&mut out, etypes.len() as u64);
    out.append(" etypes {");
    let ghost front = decimal(etypes@.len()) + " etypes {"@;
    let mut i: usize = 0;
    proof {
        assert(out@ =~= front + named_list(etypes@.take(0)));
    }
    while i < etypes.len()
        invariant
            i <= etypes@.len(),
            out@ == front + named_list(etypes@.take(i as int)),
        decreases etypes@.len() - i,
    {
        proof {
            assert(etypes@.take(i + 1).drop_last() =~= etypes@.take(i as int));
            assert(etypes@.take(i + 1).last() == etypes@[i as int]);
        }
        if i > 0 {
            out.push(',');
            out.push(' ');
        }
        push_named(&mut out, etypes[i]);
        proof {
            if i == 0 {
                assert(etypes@.take(1)[0] == etypes@[0]);
            }
            assert(out@ =~= front + named_list(etypes@.take(i + 1)));
        }
        i = i + 1;
    }
    out.push('}');
    proof {
        assert(etypes@.take(etypes@.len() as int) =~= etypes@);
        assert(out@ =~= ktypes_text(etypes@));
    }
    out
}

/// An encryption type of a reply, where it is known.
pub open spec fn reply_part(label: Seq<char>, etype: Option<i32>) -> Seq<char> {
    match etype {
        Some(t) => label + named_number(t),
        None => Seq::empty(),
    }
}

/// The encryption types of a reply, of its ticket and of its session key.
pub open spec fn rep_etypes_text(rep: i32, tkt: Option<i32>, ses: Option<i32>) -> Seq<char> {
    "etypes {rep="@ + named_number(rep) + reply_part(", tkt="@, tkt) + reply_part(", ses="@, ses)
        + seq!['}']
}

/// The encryption types of a reply, of its ticket and of its session key.
pub fn rep_etypes2str(rep: i32, tkt: Option<i32>, ses: Option<i32>) -> (r: String)
    ensures
        r@ == rep_etypes_text(rep, tkt, ses),
{
    let mut out = String::new();
    out.append("etypes {rep=");
    push_named(&mut out, rep);
    match tkt {
        Some(t) => {
            out.append(", tkt=");
            push_named(&mut out, t);
        },
        None => {},
    }
    proof {
        assert(out@ =~= "etypes {rep="@ + named_number(rep) + reply_part(", tkt="@, tkt));
    }
    match ses {
        Some(s) => {
            out.append(", ses=");
            push_named(&mut out, s);
        },
        None => {},
    }
    out.push('}');
    proof {
        assert(out@ =~= rep_etypes_text(rep, tkt, ses));
    }
    out
}

/// What is recorded of a request.
#[derive(Clone, Debug, PartialEq, Eq)]
pub struct AuditState {
    /// Name of the event.
    pub event_name: &'static str,
    /// How far the processing has come.
    pub stage: i32,
    /// Identifier of the ticket that was issued.
    pub tkt_out_id: Option<String>,
    /// Identifier of the ticket in the request.
    pub tkt_in_id: Option<String>,
    /// Identifier of the request.
    pub req_id: String,
    /// The client's port.
    pub cl_port: u32,
    /// The client's address.
    pub cl_addr: Option<HostAddress>,
    /// Status word.
    pub status: Option<String>,
    /// The client that the request names.
    pub req_client: Option<PrincipalName>,
    /// Its realm.
    pub req_client_realm: Option<String>,
    /// The server that the request names.
    pub req_server: Option<PrincipalName>,
    /// Its realm.
    pub req_server_realm: Option<String>,
    /// Options of the request.
    pub kdc_options: u32,
    /// Encryption types of the request.
    pub avail_etypes: Vec<i32>,
    /// One where renewal was asked for, two where it was not, zero where that
    /// does not matter.
    pub tkt_renewed: i32,
    /// The same of validation.
    pub tkt_validated: i32,
}

/// What a record says.
#[verifier::ext_equal]
pub struct StateView {
    /// Name of the event.
    pub event_name: Seq<char>,
    /// How far the processing has come.
    pub stage: i32,
    /// Identifier of the ticket that was issued.
    pub tkt_out_id: Option<Seq<char>>,
    /// Identifier of the ticket in the request.
    pub tkt_in_id: Option<Seq<char>>,
    /// Identifier of the request.
    pub req_id: Seq<char>,
    /// The client's port.
    pub cl_port: u32,
    /// Type and octets of the client's address.
    pub cl_addr: Option<(i32, Seq<u8>)>,
    /// Status word.
    pub status: Option<Seq<char>>,
    /// The client that the request names.
    pub req_client: Option<NameView>,
    /// Its realm.
    pub req_client_realm: Option<Seq<char>>,
    /// The server that the request names.
    pub req_server: Option<NameView>,
    /// Its realm.
    pub req_server_realm: Option<Seq<char>>,
    /// Options of the request.
    pub kdc_options: u32,
    /// Encryption types of the request.
    pub avail_etypes: Seq<i32>,
    /// Whether renewal was asked for.
    pub tkt_renewed: i32,
    /// Whether validation was asked for.
    pub tkt_validated: i32,
}

/// What an optional name says.
pub open spec fn name_view(n: Option<PrincipalName>) -> Option<NameView> {
    match n {
        Some(x) => Some(x@),
        None => None,
    }
}

/// What an optional address says.
pub open spec fn addr_view(a: Option<HostAddress>) -> Option<(i32, Seq<u8>)> {
    match a {
        Some(x) => Some((x.addr_type, x.address@)),
        None => None,
    }
}

impl View for AuditState {
    type V = StateView;

    open spec fn view(&self) -> StateView {
        StateView {
            event_name: self.event_name@,
            stage: self.stage,
            tkt_out_id: text_view(self.tkt_out_id),
            tkt_in_id: text_view(self.tkt_in_id),
            req_id: self.req_id@,
            cl_port: self.cl_port,
            cl_addr: addr_view(self.cl_addr),
            status: text_view(self.status),
            req_client: name_view(self.req_client),
            req_client_realm: text_view(self.req_client_realm),
            req_server: name_view(self.req_server),
            req_server_realm: text_view(self.req_server_realm),
            kdc_options: self.kdc_options,
            avail_etypes: self.avail_etypes@,
            tkt_renewed: self.tkt_renewed,
            tkt_validated: self.tkt_validated,
        }
    }
}

/// A copy of an optional text.
pub(crate) fn copy_text(s: &Option<String>) -> (r: Option<String>)
    ensures
        text_view(r) == text_view(*s),
{
    match s {
        Some(t) => Some(t.clone()),
        None => None,
    }
}

/// A copy of an optional name.
pub(crate) fn copy_name(n: &Option<PrincipalName>) -> (r: Option<PrincipalName>)
    ensures
        name_view(r) == name_view(*n),
{
    match n {
        Some(x) => Some(x.copy()),
        None => None,
    }
}

/// A copy of an optional address.
pub(crate) fn copy_addr(a: &Option<HostAddress>) -> (r: Option<HostAddress>)
    ensures
        addr_view(r) == addr_view(*a),
{
    match a {
        Some(x) => Some(
            HostAddress { addr_type: x.addr_type, address: copy(x.address.as_slice()) },
        ),
        None => None,
    }
}

impl AuditState {
    /// The record under another event name.
    pub fn renamed(&self, event_name: &'static str) -> (r: AuditState)
        ensures
            r@ == (StateView { event_name: event_name@, ..self@ }),
    {
        let mut etypes: Vec<i32> = Vec::new();
        let mut i: usize = 0;
        while i < self.avail_etypes.len()
            invariant
                i <= self.avail_etypes@.len(),
                etypes@ == self.avail_etypes@.take(i as int),
            decreases self.avail_etypes@.len() - i,
        {
            etypes.push(self.avail_etypes[i]);
            proof {
                assert(etypes@ =~= self.avail_etypes@.take(i + 1));
            }
            i = i + 1;
        }
        proof {
            assert(etypes@ =~= self.avail_etypes@);
        }
        AuditState {
            event_name,
            stage: self.stage,
            tkt_out_id: copy_text(&self.tkt_out_id),
            tkt_in_id: copy_text(&self.tkt_in_id),
            req_id: self.req_id.clone(),
            cl_port: self.cl_port,
            cl_addr: copy_addr(&self.cl_addr),
            status: copy_text(&self.status),
            req_client: copy_name(&self.req_client),
            req_client_realm: copy_text(&self.req_client_realm),
            req_server: copy_name(&self.req_server),
            req_server_realm: copy_text(&self.req_server_realm),
            kdc_options: self.kdc_options,
            avail_etypes: etypes,
            tkt_renewed: self.tkt_renewed,
            tkt_validated: self.tkt_validated,
        }
    }
}

/// Octets in upper-case hexadecimal are two digits each, the high half first:
/// digits that are read as what they stand for.
pub proof fn law_upper_hex_reads_back(a: Seq<u8>, b: u8)
    ensures
        upper_hex(a.push(b)) == upper_hex(a) + seq![
            upper_digit(b as int / 16),
            upper_digit(b as int % 16),
        ],
        upper_hex(a).len() == 2 * a.len(),
        crate::num::digit_value(upper_digit(b as int / 16)) == Some(b as int / 16),
        crate::num::digit_value(upper_digit(b as int % 16)) == Some(b as int % 16),
        !('a' <= upper_digit(b as int % 16) && upper_digit(b as int % 16) <= 'f'),
    decreases a.len(),
{
    assert(a.push(b).drop_last() =~= a);
    if a.len() > 0 {
        law_upper_hex_reads_back(a.drop_last(), a.last());
        assert(a.drop_last().push(a.last()) =~= a);
    }
}

/// The characters of an identifier are letters and digits, one for each octet,
/// and different for different remainders.
pub proof fn law_identifier_is_alphanumeric(b: Seq<u8>, i: int, j: int)
    requires
        0 <= i < b.len(),
        0 <= j < b.len(),
    ensures
        id_text(b).len() == b.len(),
        is_alphanumeric(id_text(b)[i]),
        id_text(b)[i] == id_text(b)[j] <==> b[i] % 62 == b[j] % 62,
{
    assert(id_text(b)[i] == alphanumeric(b[i] as int % 62));
    assert(id_text(b)[j] == alphanumeric(b[j] as int % 62));
}

/// A type is logged by its name and, in brackets, its number; old types are marked
/// as such, and unknown ones too.
pub proof fn law_type_is_logged(etype: i32)
    ensures
        named_number(etype) == logged_name(etype) + seq!['('] + decimal_int(etype as int) + seq![
            ')',
        ],
        known_name(etype) matches Some(n) ==> !n.1 ==> logged_name(etype) == n.0,
        known_name(etype) matches Some(n) ==> n.1 ==> logged_name(etype) == "DEPRECATED:"@ + n.0,
        known_name(etype) matches Some(n) ==> (n.1 <==> etype == 16 || etype == 23),
        known_name(etype) is Some <==> etype == 16 || 17 <= etype <= 20 || etype == 23,
        known_name(etype) is None && etype != 6 && etype != 24 ==> logged_name(etype)
            == "UNSUPPORTED:"@ + unsupported_name(etype),
{
}

/// Types are listed in order, with a comma and a space between each two.
pub proof fn law_types_are_listed(v: Seq<i32>, t: i32)
    ensures
        v.len() == 0 ==> named_list(v.push(t)) == named_number(t),
        v.len() > 0 ==> named_list(v.push(t)) == named_list(v) + seq![',', ' '] + named_number(t),
{
    assert(v.push(t).drop_last() =~= v);
}

} // verus!
