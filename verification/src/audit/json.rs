//! Audit records as JSON text.

use crate::audit::{AuditState, StateView};
use crate::msg::{HostAddress, ADDRTYPE_INET, ADDRTYPE_INET6};
use crate::name::{NameView, PrincipalName};
use crate::num::{decimal, decimal_int, digit, hex_octet, push_decimal, push_signed};
use crate::text::{chars_of, join, join_strings, views};
use vstd::prelude::*;
use vstd::string::*;

verus! {

/// A control character.
pub open spec fn is_control(c: char) -> bool {
    let n = c as u32;
    n <= 0x1f || 0x7f <= n <= 0x9f
}

/// A character inside a JSON string.
pub open spec fn escaped_char(c: char) -> Seq<char> {
    if c == '"' {
        seq!['\\', '"']
    } else if c == '\\' {
        seq!['\\', '\\']
    } else if c == '\n' {
        seq!['\\', 'n']
    } else if c == '\r' {
        seq!['\\', 'r']
    } else if c == '\t' {
        seq!['\\', 't']
    } else if is_control(c) {
        seq!['\\', 'u', '0', '0'] + hex_octet(c as u8)
    } else {
        seq![c]
    }
}

/// A text inside a JSON string.
pub open spec fn escaped(s: Seq<char>) -> Seq<char>
    decreases s.len(),
{
    if s.len() == 0 {
        Seq::empty()
    } else {
        escaped(s.drop_last()) + escaped_char(s.last())
    }
}

/// Adds a character inside a JSON string.
fn push_escaped(out: &mut String, c: char)
    ensures
        final(out)@ == old(out)@ + escaped_char(c),
{
    if c == '"' {
        out.push('\\');
        out.push('"');
    } else if c == '\\' {
        out.push('\\');
        out.push('\\');
    } else if c == '\n' {
        out.push('\\');
        out.push('n');
    } else if c == '\r' {
        out.push('\\');
        out.push('r');
    } else if c == '\t' {
        out.push('\\');
        out.push('t');
    } else {
        let n: u32 = c as u32;
        if n <= 0x1f || (0x7f <= n && n <= 0x9f) {
            out.push('\\');
            out.push('u');
            out.push('0');
            out.push('0');
            out.push(digit((n / 16) as u8));
            out.push(digit((n % 16) as u8));
            proof {
                assert(c as u8 == n as u8);
                assert(out@ =~= old(out)@ + (seq!['\\', 'u', '0', '0'] + hex_octet(n as u8)));
            }
        } else {
            out.push(c);
        }
    }
    proof {
        assert(out@ =~= old(out)@ + escaped_char(c));
    }
}

/// A text inside a JSON string.
pub fn json_escape(s: &str) -> (r: String)
    ensures
        r@ == escaped(s@),
{
    let cs = chars_of(s);
    let mut out = String::new();
    let mut i: usize = 0;
    proof {
        assert(cs@.take(0) =~= Seq::<char>::empty());
        assert(out@ =~= escaped(cs@.take(0)));
    }
    while i < cs.len()
        invariant
            i <= cs@.len(),
            out@ == escaped(cs@.take(i as int)),
        decreases cs@.len() - i,
    {
        push_escaped(&mut out, cs[i]);
        proof {
            assert(cs@.take(i + 1).drop_last() =~= cs@.take(i as int));
        }
        i = i + 1;
    }
    proof {
        assert(cs@.take(cs@.len() as int) =~= cs@);
    }
    out
}

/// A JSON string.
pub open spec fn json_string(s: Seq<char>) -> Seq<char> {
    seq!['"'] + escaped(s) + seq!['"']
}

/// A member of a JSON object, its value being JSON.
pub open spec fn member(k: Seq<char>, json: Seq<char>) -> Seq<char> {
    json_string(k) + seq![':'] + json
}

/// A truth value in JSON.
pub open spec fn json_bool(x: bool) -> Seq<char> {
    if x {
        "true"@
    } else {
        "false"@
    }
}

/// A JSON object.
pub open spec fn object(members: Seq<Seq<char>>) -> Seq<char> {
    seq!['{'] + join(members, ',') + seq!['}']
}

/// A JSON array.
pub open spec fn array(items: Seq<Seq<char>>) -> Seq<char> {
    seq!['['] + join(items, ',') + seq![']']
}

/// A JSON string.
fn quoted(s: &str) -> (r: String)
    ensures
        r@ == json_string(s@),
{
    let mut out = String::new();
    out.push('"');
    let e = json_escape(s);
    out.append(e.as_str());
    out.push('"');
    proof {
        assert(out@ =~= json_string(s@));
    }
    out
}

/// Between brackets, with commas.
fn enclosed(open: char, parts: &[String], close: char) -> (r: String)
    ensures
        r@ == seq![open] + join(views(parts@), ',') + seq![close],
{
    let mut out = String::new();
    out.push(open);
    let j = join_strings(parts, ',');
    out.append(j.as_str());
    out.push(close);
    proof {
        assert(out@ =~= seq![open] + join(views(parts@), ',') + seq![close]);
    }
    out
}

/// The members of a JSON object that is being written.
struct JsonObj {
    members: Vec<String>,
}

impl JsonObj {
    spec fn written(&self) -> Seq<Seq<char>> {
        views(self.members@)
    }

    fn new() -> (r: JsonObj)
        ensures
            r.written() == Seq::<Seq<char>>::empty(),
    {
        let r = JsonObj { members: Vec::new() };
        proof {
            assert(r.written() =~= Seq::<Seq<char>>::empty());
        }
        r
    }

    fn raw(&mut self, k: &str, json: &str)
        ensures
            final(self).written() == old(self).written().push(member(k@, json@)),
    {
        let mut m = quoted(k);
        m.push(':');
        m.append(json);
        proof {
            assert(m@ =~= member(k@, json@));
        }
        let ghost before = self.members@;
        self.members.push(m);
        proof {
            assert(views(self.members@) =~= views(before).push(m@));
        }
    }

    fn text(&mut self, k: &str, v: &str)
        ensures
            final(self).written() == old(self).written().push(member(k@, json_string(v@))),
    {
        let q = quoted(v);
        self.raw(k, q.as_str());
    }

    fn opt_text(&mut self, k: &str, v: &Option<String>)
        ensures
            final(self).written() == old(self).written() + opt_member(
                k@,
                crate::osa::text_view(*v),
            ),
    {
        match v {
            Some(s) => {
                self.text(k, s.as_str());
            },
            None => {},
        }
        proof {
            assert(self.written() =~= old(self).written() + opt_member(
                k@,
                crate::osa::text_view(*v),
            ));
        }
    }

    fn number(&mut self, k: &str, v: i64)
        ensures
            final(self).written() == old(self).written().push(member(k@, decimal_int(v as int))),
    {
        let mut s = String::new();
        push_signed(&mut s, v);
        proof {
            assert(s@ =~= decimal_int(v as int));
        }
        self.raw(k, s.as_str());
    }

    fn truth(&mut self, k: &str, v: bool)
        ensures
            final(self).written() == old(self).written().push(member(k@, json_bool(v))),
    {
        if v {
            self.raw(k, "true");
        } else {
            self.raw(k, "false");
        }
    }

    fn finish(self) -> (r: String)
        ensures
            r@ == object(self.written()),
    {
        enclosed('{', self.members.as_slice(), '}')
    }
}

/// A member with a text, where there is one.
pub open spec fn opt_member(k: Seq<char>, v: Option<Seq<char>>) -> Seq<Seq<char>> {
    match v {
        Some(s) => seq![member(k, json_string(s))],
        None => Seq::empty(),
    }
}

/// Numbers in decimal.
pub open spec fn decimals(v: Seq<i32>) -> Seq<Seq<char>> {
    v.map_values(|n: i32| decimal_int(n as int))
}

/// An array of numbers.
fn int_array(v: &[i32]) -> (r: String)
    ensures
        r@ == array(decimals(v@)),
{
    let mut parts: Vec<String> = Vec::new();
    let mut i: usize = 0;
    proof {
        assert(views(parts@) =~= decimals(v@).take(0));
    }
    while i < v.len()
        invariant
            i <= v@.len(),
            views(parts@) == decimals(v@).take(i as int),
        decreases v@.len() - i,
    {
        let ghost before = parts@;
        let mut s = String::new();
        push_signed(&mut s, v[i] as i64);
        let ghost sv = s@;
        proof {
            assert(sv =~= decimal_int(v@[i as int] as int));
        }
        parts.push(s);
        proof {
            assert(views(parts@) =~= views(before).push(sv));
            assert(decimals(v@).take(i + 1) =~= decimals(v@).take(i as int).push(sv));
        }
        i = i + 1;
    }
    proof {
        assert(decimals(v@).take(v@.len() as int) =~= decimals(v@));
    }
    enclosed('[', parts.as_slice(), ']')
}

/// The name of a principal in JSON.
pub open spec fn princ_text(name: NameView, realm: Seq<char>) -> Seq<char> {
    object(
        seq![
            member("components"@, array(name.components.map_values(|c: Seq<char>| json_string(c)))),
            member("realm"@, json_string(realm)),
            member("length"@, decimal(name.components.len())),
            member("type"@, decimal_int(name.name_type as int)),
        ],
    )
}

/// The name of a principal in JSON.
fn princ_json(name: &PrincipalName, realm: &str) -> (r: String)
    ensures
        r@ == princ_text(name@, realm@),
{
    let ghost want = name@.components.map_values(|c: Seq<char>| json_string(c));
    let mut parts: Vec<String> = Vec::new();
    let mut i: usize = 0;
    proof {
        assert(views(parts@) =~= want.take(0));
    }
    while i < name.name_string.len()
        invariant
            i <= name.name_string@.len(),
            want == name@.components.map_values(|c: Seq<char>| json_string(c)),
            views(parts@) == want.take(i as int),
        decreases name.name_string@.len() - i,
    {
        let ghost before = parts@;
        let s = quoted(name.name_string[i].as_str());
        let ghost sv = s@;
        parts.push(s);
        proof {
            assert(name@.components[i as int] == name.name_string@[i as int]@);
            assert(views(parts@) =~= views(before).push(sv));
            assert(want.take(i + 1) =~= want.take(i as int).push(sv));
        }
        i = i + 1;
    }
    proof {
        assert(want.take(want.len() as int) =~= want);
    }
    let comps = enclosed('[', parts.as_slice(), ']');
    let mut j = JsonObj::new();
    j.raw("components", comps.as_str());
    j.text("realm", realm);
    let mut n = String::new();
    push_decimal(&mut n, name.name_string.len() as u64);
    proof {
        assert(n@ =~= decimal(name@.components.len()));
    }
    j.raw("length", n.as_str());
    j.number("type", name.name_type as i64);
    proof {
        assert(j.written() =~= seq![
            member("components"@, array(want)),
            member("realm"@, json_string(realm@)),
            member("length"@, decimal(name@.components.len())),
            member("type"@, decimal_int(name.name_type as int)),
        ]);
    }
    j.finish()
}

/// Octets as numbers.
pub open spec fn octets_as_numbers(b: Seq<u8>) -> Seq<i32> {
    b.map_values(|x: u8| x as i32)
}

/// A network address in JSON.
pub open spec fn addr_text(ty: i32, address: Seq<u8>) -> Seq<char> {
    let n: int = if address.len() <= u32::MAX {
        address.len() as int
    } else {
        u32::MAX as int
    };
    let front = seq![
        member("type"@, decimal_int(ty as int)),
        member("length"@, decimal_int(n)),
    ];
    if ty == ADDRTYPE_INET || ty == ADDRTYPE_INET6 {
        object(front.push(member("ip"@, array(decimals(octets_as_numbers(address))))))
    } else {
        object(front)
    }
}

/// A network address in JSON.
fn addr_json(addr: &HostAddress) -> (r: String)
    ensures
        r@ == addr_text(addr.addr_type, addr.address@),
{
    let mut j = JsonObj::new();
    j.number("type", addr.addr_type as i64);
    let n: i64 = if addr.address.len() as u64 <= 0xffff_ffff {
        addr.address.len() as i64
    } else {
        0xffff_ffff
    };
    j.number("length", n);
    let ghost front = seq![
        member("type"@, decimal_int(addr.addr_type as int)),
        member("length"@, decimal_int(n as int)),
    ];
    proof {
        assert(j.written() =~= front);
    }
    if addr.addr_type == ADDRTYPE_INET || addr.addr_type == ADDRTYPE_INET6 {
        let mut ips: Vec<i32> = Vec::new();
        let mut i: usize = 0;
        while i < addr.address.len()
            invariant
                i <= addr.address@.len(),
                ips@ == octets_as_numbers(addr.address@).take(i as int),
            decreases addr.address@.len() - i,
        {
            ips.push(addr.address[i] as i32);
            proof {
                assert(ips@ =~= octets_as_numbers(addr.address@).take(i + 1));
            }
            i = i + 1;
        }
        proof {
            assert(ips@ =~= octets_as_numbers(addr.address@));
        }
        let a = int_array(ips.as_slice());
        j.raw("ip", a.as_str());
    }
    j.finish()
}

/// A start or a stop of the service in JSON.
pub open spec fn start_stop_text(name: Seq<char>, success: bool) -> Seq<char> {
    "{\"event_name\":\""@ + name + "\",\"event_success\":"@ + json_bool(success) + seq!['}']
}

/// A start or a stop of the service in JSON.
pub fn start_stop_json(name: &str, success: bool) -> (r: String)
    ensures
        r@ == start_stop_text(name@, success),
{
    let mut out = String::new();
    out.append("{\"event_name\":\"");
    out.append(name);
    out.append("\",\"event_success\":");
    out.append(
        if success {
            "true"
        } else {
            "false"
        },
    );
    out.push('}');
    proof {
        assert(out@ =~= start_stop_text(name@, success));
    }
    out
}

/// A member for a principal, where there is one.
pub open spec fn princ_member(
    k: Seq<char>,
    name: Option<NameView>,
    realm: Option<Seq<char>>,
) -> Seq<Seq<char>> {
    match name {
        Some(n) => seq![
            member(
                k,
                princ_text(
                    n,
                    match realm {
                        Some(r) => r,
                        None => Seq::empty(),
                    },
                ),
            ),
        ],
        None => Seq::empty(),
    }
}

/// A member for a number that is not zero.
pub open spec fn nonzero_member(k: Seq<char>, v: i32) -> Seq<Seq<char>> {
    if v != 0 {
        seq![member(k, decimal_int(v as int))]
    } else {
        Seq::empty()
    }
}

/// The first members of a record.
pub open spec fn first_members(s: StateView, success: bool) -> Seq<Seq<char>> {
    seq![
        member("event_name"@, json_string(s.event_name)),
        member("stage"@, decimal_int(s.stage as int)),
        member("event_success"@, json_bool(success)),
    ] + opt_member("tkt_in_id"@, s.tkt_in_id) + opt_member("tkt_out_id"@, s.tkt_out_id) + seq![
        member("req_id"@, json_string(s.req_id)),
        member("fromport"@, decimal_int(s.cl_port as int)),
    ] + (match s.cl_addr {
        Some((ty, a)) => seq![member("fromaddr"@, addr_text(ty, a))],
        None => Seq::empty(),
    })
}

/// The members behind them.
pub open spec fn last_members(s: StateView) -> Seq<Seq<char>> {
    opt_member("kdc_status"@, s.status) + princ_member(
        "req.client"@,
        s.req_client,
        s.req_client_realm,
    ) + princ_member("req.server"@, s.req_server, s.req_server_realm) + seq![
        member("req.kdc_options"@, decimal_int(s.kdc_options as int)),
    ] + (if s.avail_etypes.len() > 0 {
        seq![member("req.avail_etypes"@, array(decimals(s.avail_etypes)))]
    } else {
        Seq::empty()
    }) + nonzero_member("tkt_renewed"@, s.tkt_renewed) + nonzero_member(
        "tkt_validated"@,
        s.tkt_validated,
    )
}

/// Adds a member for a principal.
fn put_princ(j: &mut JsonObj, k: &str, name: &Option<PrincipalName>, realm: &Option<String>)
    ensures
        final(j).written() == old(j).written() + princ_member(
            k@,
            crate::audit::name_view(*name),
            crate::osa::text_view(*realm),
        ),
{
    match name {
        Some(n) => {
            let p = match realm {
                Some(r) => princ_json(n, r.as_str()),
                None => {
                    proof {
                        reveal_strlit("");
                        assert(""@ =~= Seq::<char>::empty());
                    }
                    princ_json(n, "")
                },
            };
            j.raw(k, p.as_str());
        },
        None => {},
    }
    proof {
        assert(j.written() =~= old(j).written() + princ_member(
            k@,
            crate::audit::name_view(*name),
            crate::osa::text_view(*realm),
        ));
    }
}

/// Adds a member for a number that is not zero.
fn put_nonzero(j: &mut JsonObj, k: &str, v: i32)
    ensures
        final(j).written() == old(j).written() + nonzero_member(k@, v),
{
    if v != 0 {
        j.number(k, v as i64);
    }
    proof {
        assert(j.written() =~= old(j).written() + nonzero_member(k@, v));
    }
}

impl AuditState {
    fn put_first(&self, j: &mut JsonObj, success: bool)
        ensures
            final(j).written() == old(j).written() + first_members(self@, success),
    {
        let ghost o = j.written();
        j.text("event_name", self.event_name);
        j.number("stage", self.stage as i64);
        j.truth("event_success", success);
        let ghost a = seq![
            member("event_name"@, json_string(self.event_name@)),
            member("stage"@, decimal_int(self.stage as int)),
            member("event_success"@, json_bool(success)),
        ];
        proof {
            assert(j.written() =~= o + a);
        }
        j.opt_text("tkt_in_id", &self.tkt_in_id);
        j.opt_text("tkt_out_id", &self.tkt_out_id);
        let ghost b = opt_member("tkt_in_id"@, self@.tkt_in_id);
        let ghost c = opt_member("tkt_out_id"@, self@.tkt_out_id);
        proof {
            assert(j.written() =~= o + (a + b + c));
        }
        j.text("req_id", self.req_id.as_str());
        j.number("fromport", self.cl_port as i64);
        let ghost d = seq![
            member("req_id"@, json_string(self.req_id@)),
            member("fromport"@, decimal_int(self.cl_port as int)),
        ];
        proof {
            assert(j.written() =~= o + (a + b + c + d));
        }
        match &self.cl_addr {
            Some(addr) => {
                let t = addr_json(addr);
                j.raw("fromaddr", t.as_str());
            },
            None => {},
        }
        proof {
            assert(j.written() =~= o + first_members(self@, success));
        }
    }

    fn put_last(&self, j: &mut JsonObj)
        ensures
            final(j).written() == old(j).written() + last_members(self@),
    {
        let ghost o = j.written();
        j.opt_text("kdc_status", &self.status);
        put_princ(j, "req.client", &self.req_client, &self.req_client_realm);
        put_princ(j, "req.server", &self.req_server, &self.req_server_realm);
        let ghost a = opt_member("kdc_status"@, self@.status);
        let ghost b = princ_member("req.client"@, self@.req_client, self@.req_client_realm);
        let ghost c = princ_member("req.server"@, self@.req_server, self@.req_server_realm);
        proof {
            assert(j.written() =~= o + (a + b + c));
        }
        j.number("req.kdc_options", self.kdc_options as i64);
        let ghost d = seq![member("req.kdc_options"@, decimal_int(self.kdc_options as int))];
        proof {
            assert(j.written() =~= o + (a + b + c + d));
        }
        if self.avail_etypes.len() > 0 {
            let t = int_array(self.avail_etypes.as_slice());
            j.raw("req.avail_etypes", t.as_str());
        }
        let ghost e = if self@.avail_etypes.len() > 0 {
            seq![member("req.avail_etypes"@, array(decimals(self@.avail_etypes)))]
        } else {
            Seq::empty()
        };
        proof {
            assert(j.written() =~= o + (a + b + c + d + e));
        }
        put_nonzero(j, "tkt_renewed", self.tkt_renewed);
        put_nonzero(j, "tkt_validated", self.tkt_validated);
        proof {
            assert(j.written() =~= o + last_members(self@));
        }
    }

    /// The record as JSON.
    pub fn to_json(&self, success: bool) -> (r: String)
        ensures
            r@ == object(first_members(self@, success) + last_members(self@)),
    {
        let mut j = JsonObj::new();
        self.put_first(&mut j, success);
        self.put_last(&mut j);
        proof {
            assert(j.written() =~= first_members(self@, success) + last_members(self@));
        }
        j.finish()
    }
}

/// A quote at `i` stands behind a backslash.
pub open spec fn quote_is_escaped(s: Seq<char>, i: int) -> bool {
    s[i] == '"' ==> i > 0 && s[i - 1] == '\\'
}

/// A text that is escaped holds no quote that is not behind a backslash, and
/// no control character.
pub proof fn law_escaped_text_is_closed(s: Seq<char>)
    ensures
        forall|i: int| 0 <= i < escaped(s).len() ==> !is_control(#[trigger] escaped(s)[i]),
        forall|i: int|
            0 <= i < escaped(s).len() ==> #[trigger] quote_is_escaped(escaped(s), i),
    decreases s.len(),
{
    if s.len() > 0 {
        let f = escaped(s.drop_last());
        let t = escaped_char(s.last());
        let e = escaped(s);
        law_escaped_text_is_closed(s.drop_last());
        assert forall|i: int| 0 <= i < e.len() implies !is_control(#[trigger] e[i]) by {
            if i < f.len() {
                assert(e[i] == f[i]);
            } else {
                assert(e[i] == t[i - f.len()]);
            }
        }
        assert forall|i: int| 0 <= i < e.len() implies #[trigger] quote_is_escaped(e, i) by {
            if i < f.len() {
                assert(quote_is_escaped(f, i));
                assert(e[i] == f[i]);
                if i > 0 {
                    assert(e[i - 1] == f[i - 1]);
                }
            } else if e[i] == '"' {
                assert(e[i] == t[i - f.len()]);
                assert(i - f.len() == 1);
                assert(e[i - 1] == t[0]);
            }
        }
    }
}

/// Texts are escaped character by character: two together as each; a character
/// that is neither a quote, a backslash nor a control is itself.
pub proof fn law_text_is_escaped(a: Seq<char>, b: Seq<char>, c: char)
    ensures
        escaped(a + b) == escaped(a) + escaped(b),
        c != '"' && c != '\\' && !(c as u32 <= 0x1f) && !(0x7f <= c as u32 <= 0x9f) ==> escaped(
            seq![c],
        ) == seq![c],
        escaped(seq!['"']) == seq!['\\', '"'],
        escaped(seq!['\\']) == seq!['\\', '\\'],
        escaped(seq!['\n']) == seq!['\\', 'n'],
        escaped(seq!['\r']) == seq!['\\', 'r'],
        escaped(seq!['\t']) == seq!['\\', 't'],
    decreases b.len(),
{
    assert forall|x: char| escaped(#[trigger] seq![x]) == escaped_char(x) by {
        assert(seq![x].drop_last() =~= Seq::<char>::empty());
        assert(escaped(seq![x].drop_last()) =~= Seq::<char>::empty());
        assert(Seq::<char>::empty() + escaped_char(x) =~= escaped_char(x));
    }
    if b.len() == 0 {
        assert(a + b =~= a);
        assert(escaped(b) =~= Seq::<char>::empty());
        assert(escaped(a) + escaped(b) =~= escaped(a));
    } else {
        law_text_is_escaped(a, b.drop_last(), c);
        assert((a + b).drop_last() =~= a + b.drop_last());
        assert((a + b).last() == b.last());
        assert(escaped(a) + escaped(b) =~= (escaped(a) + escaped(b.drop_last())) + escaped_char(
            b.last(),
        ));
    }
}

/// A record says whether the request succeeded, and tells identifiers, status,
/// client and server exactly where they are known.
pub proof fn law_record_tells_what_is_known(s: StateView, success: bool)
    ensures
        ({
            let a = first_members(s, success);
            let b = last_members(s);
            &&& a[0] == member("event_name"@, json_string(s.event_name))
            &&& a[1] == member("stage"@, decimal_int(s.stage as int))
            &&& a[2] == member("event_success"@, if success {
                "true"@
            } else {
                "false"@
            })
            &&& s.tkt_in_id matches Some(t) ==> a[3] == member("tkt_in_id"@, json_string(t))
            &&& s.tkt_in_id is None ==> (s.tkt_out_id matches Some(t) ==> a[3] == member(
                "tkt_out_id"@,
                json_string(t),
            ))
            &&& s.status matches Some(t) ==> b[0] == member("kdc_status"@, json_string(t))
            &&& a.len() == 5 + (if s.tkt_in_id is Some {
                1int
            } else {
                0
            }) + (if s.tkt_out_id is Some {
                1int
            } else {
                0
            }) + (if s.cl_addr is Some {
                1int
            } else {
                0
            })
        }),
{
}

} // verus!
