//! Finding the server of a TGS request: the server itself, a referral, or a
//! realm on the way.

use crate::ad::{has_non_tgt_or_u2u, non_tgt_or_u2u};
use crate::error::{
    proto, refusal, refuses, spec_with_status, with_status, Error, Status, SVC_UNAVAILABLE,
    S_PRINCIPAL_UNKNOWN,
};
use crate::flags::{Flags, CANONICALIZE, ENC_TKT_IN_SKEY};
use crate::kdb::PrincipalRead;
use crate::msg::KdcReqBody;
use crate::name::{
    krbtgt_view, spec_lookup_principal_id, NameView, PrincipalName, NT_SRV_HST, NT_SRV_INST,
    NT_UNKNOWN,
};
use crate::store::{Policy, Principal};
use crate::text::{chars_of, str_eq};
use vstd::prelude::*;
use vstd::string::*;

verus! {

/// Characters that stand between the items of a list.
pub open spec fn list_separator(c: char) -> bool {
    c == ' ' || c == '\t' || c == '\n' || c == '\u{000c}' || c == '\r' || c == ','
}

/// `i..j` is a whole item of the list: separators or the ends on both sides,
/// none inside.
pub open spec fn is_item(list: Seq<char>, i: int, j: int) -> bool {
    &&& 0 <= i <= j <= list.len()
    &&& i == 0 || list_separator(list[i - 1])
    &&& j == list.len() || list_separator(list[j])
    &&& forall|k: int| i <= k < j ==> !list_separator(#[trigger] list[k])
}

/// Whether `item` is an item of the list. The empty list has no item.
pub open spec fn spec_in_list(list: Seq<char>, item: Seq<char>) -> bool {
    list.len() > 0 && exists|i: int, j: int|
        #[trigger] is_item(list, i, j) && list.subrange(i, j) == item
}

fn is_separator(c: char) -> (r: bool)
    ensures
        r == list_separator(c),
{
    c == ' ' || c == '\t' || c == '\n' || c == '\u{000c}' || c == '\r' || c == ','
}

/// Whether `item` is an item of the list.
pub fn in_list(list: &str, item: &str) -> (r: bool)
    ensures
        r == spec_in_list(list@, item@),
{
    let l = chars_of(list);
    if l.len() == 0 {
        return false;
    }
    let mut start: usize = 0;
    loop
        invariant
            l@ == list@,
            start <= l.len(),
            l.len() > 0,
            start == 0 || list_separator(l@[start - 1]),
            forall|i: int, j: int|
                i < start && #[trigger] is_item(l@, i, j) ==> l@.subrange(i, j) != item@,
        decreases l.len() - start,
    {
        let mut end: usize = start;
        while end < l.len() && !is_separator(l[end])
            invariant
                start <= end <= l.len(),
                forall|k: int| start <= k < end ==> !list_separator(#[trigger] l@[k]),
            decreases l.len() - end,
        {
            end = end + 1;
        }
        let here = crate::text::range_string(l.as_slice(), start, end);
        proof {
            assert(is_item(l@, start as int, end as int));
        }
        if str_eq(here.as_str(), item) {
            return true;
        }
        proof {
            assert forall|i: int, j: int|
                i <= end && #[trigger] is_item(l@, i, j) implies l@.subrange(i, j) != item@ by {
                if i > start {
                    assert(list_separator(l@[i - 1]));
                } else if i == start {
                    if j < end {
                        assert(list_separator(l@[j]));
                    } else if j > end {
                        assert(list_separator(l@[end as int]));
                    }
                }
            }
        }
        if end == l.len() {
            proof {
                assert forall|i: int, j: int|
                    #[trigger] is_item(l@, i, j) implies l@.subrange(i, j) != item@ by {
                    assert(i <= end);
                }
            }
            return false;
        }
        start = end + 1;
    }
}

/// Whether the request is one that may be answered with a referral: names of
/// two components, asked to be canonical, of a host-based service that
/// referrals are not switched off for.
pub open spec fn spec_is_referral_req(policy: Policy, o: Flags, sname: NameView) -> bool {
    &&& o.has(CANONICALIZE as int)
    &&& !o.has(ENC_TKT_IN_SKEY as int)
    &&& sname.components.len() == 2
    &&& sname.name_type == NT_SRV_HST || sname.name_type == NT_SRV_INST || (sname.name_type
        == NT_UNKNOWN && (spec_in_list(policy.host_based_services@, sname.components[0])
        || spec_in_list(policy.host_based_services@, "*"@)))
    &&& !spec_in_list(policy.no_host_referral@, sname.components[0])
    &&& !spec_in_list(policy.no_host_referral@, "*"@)
}

/// Whether the request may be answered with a referral.
pub fn is_referral_req(policy: &Policy, body: &KdcReqBody, sname: &PrincipalName) -> (r: bool)
    ensures
        r == spec_is_referral_req(*policy, body.kdc_options, sname@),
{
    let o = body.kdc_options;
    if !o.bit(CANONICALIZE) || o.bit(ENC_TKT_IN_SKEY) || sname.name_string.len() != 2 {
        return false;
    }
    let stype = sname.name_string[0].as_str();
    proof {
        assert(stype@ == sname@.components[0]);
    }
    let hostbased = policy.host_based_services.as_str();
    let no_ref = policy.no_host_referral.as_str();
    if sname.name_type == NT_UNKNOWN {
        if !in_list(hostbased, stype) && !in_list(hostbased, "*") {
            return false;
        }
    } else if sname.name_type != NT_SRV_HST && sname.name_type != NT_SRV_INST {
        return false;
    }
    !in_list(no_ref, stype) && !in_list(no_ref, "*")
}

/// What is known of the host that a server name ends in.
#[derive(Clone, Debug, PartialEq, Eq)]
pub struct HostFacts {
    /// The name is a numeric address.
    pub numeric: bool,
    /// The realm that the host belongs to, where one is configured.
    pub realm: Option<String>,
}

/// The realm that a request is referred to, where it is referred: that of a
/// host with a dotted, not numeric name, where it is another realm.
pub open spec fn referral_realm(
    policy: Policy,
    o: Flags,
    sname: NameView,
    req_realm: Seq<char>,
    host: HostFacts,
) -> Option<Seq<char>> {
    if spec_is_referral_req(policy, o, sname) && sname.components[1].contains('.') && !host.numeric
        && host.realm is Some && host.realm->0@.len() > 0 && host.realm->0@ != req_realm {
        Some(host.realm->0@)
    } else {
        None
    }
}

fn has_char(s: &str, c: char) -> (r: bool)
    ensures
        r == s@.contains(c),
{
    let cs = chars_of(s);
    let mut i: usize = 0;
    while i < cs.len()
        invariant
            cs@ == s@,
            i <= cs.len(),
            forall|k: int| 0 <= k < i ==> cs@[k] != c,
        decreases cs.len() - i,
    {
        if cs[i] == c {
            proof {
                assert(cs@[i as int] == c);
            }
            return true;
        }
        i = i + 1;
    }
    false
}

/// The ticket-granting service that a request is referred to.
pub fn find_referral_tgs(
    policy: &Policy,
    body: &KdcReqBody,
    sname: &PrincipalName,
    req_realm: &str,
    host: &HostFacts,
) -> (r: Result<PrincipalName, Error>)
    ensures
        match referral_realm(*policy, body.kdc_options, sname@, req_realm@, *host) {
            Some(x) => r matches Ok(n) && n@ == krbtgt_view(x),
            None => r == Err::<PrincipalName, Error>(
                refusal(S_PRINCIPAL_UNKNOWN, Status::LookingUpServer),
            ),
        },
{
    if !is_referral_req(policy, body, sname) {
        return Err(proto(S_PRINCIPAL_UNKNOWN, Status::LookingUpServer));
    }
    proof {
        assert(sname@.components[1] == sname.name_string@[1]@);
    }
    if !has_char(sname.name_string[1].as_str(), '.') || host.numeric {
        return Err(proto(S_PRINCIPAL_UNKNOWN, Status::LookingUpServer));
    }
    match &host.realm {
        Some(other) => {
            if other.as_str().is_empty() || str_eq(other.as_str(), req_realm) {
                return Err(proto(S_PRINCIPAL_UNKNOWN, Status::LookingUpServer));
            }
            Ok(PrincipalName::krbtgt(other.as_str()))
        },
        None => Err(proto(S_PRINCIPAL_UNKNOWN, Status::LookingUpServer)),
    }
}

/// A lookup of a server: a database that is out of service says so, any
/// other failure is an unknown server, both under one status word.
pub open spec fn svc_lookup<S: PrincipalRead>(store: &S, name: NameView) -> Result<
    Option<Principal>,
    Error,
> {
    match store.lookup(spec_lookup_principal_id(name, store.realm_view())) {
        Ok(v) => Ok(v),
        Err(e) => if e matches Error::Protocol { code, .. } && code == SVC_UNAVAILABLE {
            Err(spec_with_status(e, Status::LookingUpServer))
        } else {
            Err(refusal(S_PRINCIPAL_UNKNOWN, Status::LookingUpServer))
        },
    }
}

/// Looks up a server.
pub fn lookup_svc_princ<'a, S: PrincipalRead>(store: &'a S, name: &PrincipalName) -> (r: Result<
    Option<&'a Principal>,
    Error,
>)
    ensures
        crate::kdb::fetched(r) == svc_lookup(store, name@),
{
    match store.fetch_name(name) {
        Ok(v) => Ok(v),
        Err(e) => {
            let unavailable: bool = match &e {
                Error::Protocol { code, .. } => *code == SVC_UNAVAILABLE,
                _ => false,
            };
            if unavailable {
                Err(with_status(e, Status::LookingUpServer))
            } else {
                Err(proto(S_PRINCIPAL_UNKNOWN, Status::LookingUpServer))
            }
        },
    }
}

/// The ticket-granting service of the last realm among the first `n` of
/// `hops`, other than the first, that the database knows.
pub open spec fn alternate_tgs<S: PrincipalRead>(store: &S, hops: Seq<String>, n: int) -> Result<
    Principal,
    Error,
>
    decreases n,
{
    if n <= 1 {
        Err(refusal(S_PRINCIPAL_UNKNOWN, Status::UnknownServer))
    } else {
        match svc_lookup(store, krbtgt_view(hops[n - 1]@)) {
            Err(e) => Err(e),
            Ok(Some(p)) => Ok(p),
            Ok(None) => alternate_tgs(store, hops, n - 1),
        }
    }
}

/// A found entry, by value.
pub open spec fn found(r: Result<&Principal, Error>) -> Result<Principal, Error> {
    match r {
        Ok(p) => Ok(*p),
        Err(e) => Err(e),
    }
}

/// Finds a ticket-granting service on the way to another realm, nearest to
/// it first. `hops` are the realms on the way, the local one first.
pub fn find_alternate_tgs<'a, S: PrincipalRead>(store: &'a S, hops: &[String]) -> (r: Result<
    &'a Principal,
    Error,
>)
    ensures
        found(r) == alternate_tgs(store, hops@, hops@.len() as int),
{
    let mut n: usize = hops.len();
    while n > 1
        invariant
            n <= hops.len(),
            alternate_tgs(store, hops@, hops@.len() as int) == alternate_tgs(
                store,
                hops@,
                n as int,
            ),
        decreases n,
    {
        let hop = PrincipalName::krbtgt(hops[n - 1].as_str());
        match lookup_svc_princ(store, &hop) {
            Err(e) => {
                return Err(e);
            },
            Ok(Some(p)) => {
                return Ok(p);
            },
            Ok(None) => {},
        }
        n = n - 1;
    }
    Err(proto(S_PRINCIPAL_UNKNOWN, Status::UnknownServer))
}

/// The entry that answers a request for `requested`: the server's own; else,
/// unless the request wants a form of the ticket it presents, the
/// ticket-granting service that it is referred to, or one on the way there.
pub open spec fn spec_search_sprinc<S: PrincipalRead>(
    store: &S,
    requested: NameView,
    req_realm: Seq<char>,
    body: KdcReqBody,
    host: HostFacts,
    hops: Seq<String>,
) -> Result<Principal, Error> {
    match svc_lookup(store, requested) {
        Err(e) => Err(e),
        Ok(Some(p)) => Ok(p),
        Ok(None) => if non_tgt_or_u2u(body.kdc_options) {
            Err(refusal(S_PRINCIPAL_UNKNOWN, Status::LookingUpServer))
        } else if requested.is_cross_tgs(req_realm) {
            alternate_tgs(store, hops, hops.len() as int)
        } else {
            match referral_realm(store.policy_view(), body.kdc_options, requested, req_realm, host) {
                None => Err(refusal(S_PRINCIPAL_UNKNOWN, Status::LookingUpServer)),
                Some(realm) => match svc_lookup(store, krbtgt_view(realm)) {
                    Err(e) => Err(e),
                    Ok(Some(p)) => Ok(p),
                    Ok(None) => alternate_tgs(store, hops, hops.len() as int),
                },
            }
        },
    }
}

/// Finds the entry that answers a request for `requested`.
pub fn search_sprinc<'a, S: PrincipalRead>(
    store: &'a S,
    requested: &PrincipalName,
    req_realm: &str,
    body: &KdcReqBody,
    host: &HostFacts,
    hops: &[String],
) -> (r: Result<&'a Principal, Error>)
    ensures
        found(r) == spec_search_sprinc(store, requested@, req_realm@, *body, *host, hops@),
{
    match lookup_svc_princ(store, requested) {
        Err(e) => {
            return Err(e);
        },
        Ok(Some(p)) => {
            return Ok(p);
        },
        Ok(None) => {},
    }
    if has_non_tgt_or_u2u(body.kdc_options) {
        return Err(proto(S_PRINCIPAL_UNKNOWN, Status::LookingUpServer));
    }
    if !requested.is_cross_tgs_principal(req_realm) {
        let reftgs = match find_referral_tgs(store.policy(), body, requested, req_realm, host) {
            Err(e) => {
                return Err(e);
            },
            Ok(n) => n,
        };
        match lookup_svc_princ(store, &reftgs) {
            Err(e) => {
                return Err(e);
            },
            Ok(Some(p)) => {
                return Ok(p);
            },
            Ok(None) => {},
        }
    }
    find_alternate_tgs(store, hops)
}

/// The answer is a referral: a ticket-granting service of another realm that
/// was not itself asked for.
pub open spec fn issuing_referral(
    requested: NameView,
    req_realm: Seq<char>,
    resolved: Principal,
) -> bool {
    resolved.name@.is_cross_tgs(resolved.realm@) && !(resolved.name@.components
        == requested.components && resolved.realm@ == req_realm)
}

/// Whether the answer is a referral.
pub fn tgs_issuing_referral(
    requested: &PrincipalName,
    req_realm: &str,
    resolved: &Principal,
) -> (r: bool)
    ensures
        r == issuing_referral(requested@, req_realm@, *resolved),
{
    resolved.name.is_cross_tgs_principal(resolved.realm.as_str()) && !(
    resolved.name.components_eq(requested) && str_eq(resolved.realm.as_str(), req_realm))
}

/// The header ticket's server is of another realm than the server that is
/// answered for.
pub fn tgs_header_is_crossrealm(header_server_realm: &str, sprinc_realm: &str) -> (r: bool)
    ensures
        r == (header_server_realm@ != sprinc_realm@),
{
    !str_eq(header_server_realm, sprinc_realm)
}

/// A server that the database knows is answered for itself: no referral is
/// made for it.
pub proof fn law_known_server_is_no_referral<S: PrincipalRead>(
    store: &S,
    requested: NameView,
    req_realm: Seq<char>,
    body: KdcReqBody,
    host: HostFacts,
    hops: Seq<String>,
    p: Principal,
)
    requires
        svc_lookup(store, requested) == Ok::<Option<Principal>, Error>(Some(p)),
    ensures
        spec_search_sprinc(store, requested, req_realm, body, host, hops) == Ok::<Principal, Error>(
            p,
        ),
{
}

/// A list holds an item exactly where one of its parts does: the parts of a list
/// stand on either side of a blank, a tab, a line end, a form feed or a comma,
/// and a part without any of these holds itself alone.
pub proof fn law_list_holds_its_words(a: Seq<char>, sep: char, b: Seq<char>, item: Seq<char>)
    requires
        item.len() > 0,
        sep == ' ' || sep == '\t' || sep == '\n' || sep == '\u{000c}' || sep == '\r' || sep == ',',
    ensures
        spec_in_list(a + seq![sep] + b, item) <==> spec_in_list(a, item) || spec_in_list(b, item),
        (forall|k: int| 0 <= k < a.len() ==> !list_separator(#[trigger] a[k])) ==> (spec_in_list(
            a,
            item,
        ) <==> a == item),
        !spec_in_list(Seq::empty(), item),
{
    let l = a + seq![sep] + b;
    let n = a.len() as int;
    assert(l[n] == sep);
    if spec_in_list(a, item) {
        let (i, j) = choose|i: int, j: int|
            #[trigger] is_item(a, i, j) && a.subrange(i, j) == item;
        assert forall|k: int| i <= k < j implies !list_separator(#[trigger] l[k]) by {
            assert(a[k] == l[k]);
        }
        if i > 0 {
            assert(l[i - 1] == a[i - 1]);
        }
        if j < n {
            assert(l[j] == a[j]);
        }
        assert(is_item(l, i, j));
        assert(l.subrange(i, j) =~= a.subrange(i, j));
    }
    if spec_in_list(b, item) {
        let (i, j) = choose|i: int, j: int|
            #[trigger] is_item(b, i, j) && b.subrange(i, j) == item;
        let x = i + n + 1;
        let y = j + n + 1;
        assert forall|k: int| x <= k < y implies !list_separator(#[trigger] l[k]) by {
            assert(b[k - n - 1] == l[k]);
        }
        if i > 0 {
            assert(l[x - 1] == b[i - 1]);
        }
        if j < b.len() {
            assert(l[y] == b[j]);
        }
        assert(is_item(l, x, y));
        assert(l.subrange(x, y) =~= b.subrange(i, j));
    }
    if spec_in_list(l, item) {
        let (i, j) = choose|i: int, j: int|
            #[trigger] is_item(l, i, j) && l.subrange(i, j) == item;
        assert(item.len() == j - i);
        if i <= n {
            if j > n {
                if i < n || i == n {
                    assert(!list_separator(l[n]));
                }
            }
            assert(j <= n);
            assert forall|k: int| i <= k < j implies !list_separator(#[trigger] a[k]) by {
                assert(a[k] == l[k]);
            }
            if i > 0 {
                assert(l[i - 1] == a[i - 1]);
            }
            if j < n {
                assert(l[j] == a[j]);
            }
            assert(is_item(a, i, j));
            assert(l.subrange(i, j) =~= a.subrange(i, j));
        } else {
            let x = i - n - 1;
            let y = j - n - 1;
            assert forall|k: int| x <= k < y implies !list_separator(#[trigger] b[k]) by {
                assert(b[k] == l[k + n + 1]);
            }
            if x > 0 {
                assert(l[i - 1] == b[x - 1]);
            }
            if y < b.len() {
                assert(l[j] == b[y]);
            }
            assert(is_item(b, x, y));
            assert(l.subrange(i, j) =~= b.subrange(x, y));
        }
    }
    if forall|k: int| 0 <= k < a.len() ==> !list_separator(#[trigger] a[k]) {
        if a == item {
            assert(is_item(a, 0, n));
            assert(a.subrange(0, n) =~= a);
        }
        if spec_in_list(a, item) {
            let (i, j) = choose|i: int, j: int|
                #[trigger] is_item(a, i, j) && a.subrange(i, j) == item;
            if i > 0 {
                assert(list_separator(a[i - 1]));
            }
            if j < n {
                assert(list_separator(a[j]));
            }
            assert(a.subrange(0, n) =~= a);
        }
    }
}

/// A request is referred exactly where it asks for a canonical name of two
/// components, not under a session key, of a service that is host based by its
/// type or by the realm's list and not excepted; to the realm of a host with a
/// dotted name that is no number, where that realm is known and another one.
pub proof fn law_request_is_referred(
    policy: Policy,
    o: Flags,
    sname: NameView,
    req_realm: Seq<char>,
    host: HostFacts,
)
    requires
        sname.components.len() == 2,
    ensures
        referral_realm(policy, o, sname, req_realm, host) is Some <==> {
            let service = sname.components[0];
            &&& o.has(CANONICALIZE as int)
            &&& !o.has(ENC_TKT_IN_SKEY as int)
            &&& {
                ||| sname.name_type == NT_SRV_HST
                ||| sname.name_type == NT_SRV_INST
                ||| sname.name_type == NT_UNKNOWN && spec_in_list(
                    policy.host_based_services@,
                    service,
                )
                ||| sname.name_type == NT_UNKNOWN && spec_in_list(
                    policy.host_based_services@,
                    "*"@,
                )
            }
            &&& !spec_in_list(policy.no_host_referral@, service)
            &&& !spec_in_list(policy.no_host_referral@, "*"@)
            &&& sname.components[1].contains('.')
            &&& !host.numeric
            &&& host.realm matches Some(r) && r@.len() > 0 && r@ != req_realm
        },
        referral_realm(policy, o, sname, req_realm, host) matches Some(r) ==> (host.realm
            matches Some(h) && r == h@),
{
}

/// Only names of two components are referred.
pub proof fn law_other_names_are_not_referred(
    policy: Policy,
    o: Flags,
    sname: NameView,
    req_realm: Seq<char>,
    host: HostFacts,
)
    requires
        sname.components.len() != 2,
    ensures
        referral_realm(policy, o, sname, req_realm, host) is None,
{
}

/// A server that the database does not know is answered for by the nearest realm
/// on the way that it knows: of the hops behind the first, the last one that has
/// a ticket-granting service here.
pub proof fn law_nearest_hop_answers<S: PrincipalRead>(
    store: &S,
    hops: Seq<String>,
    n: int,
    k: int,
    p: Principal,
)
    requires
        1 <= k < n,
        svc_lookup(store, krbtgt_view(hops[k]@)) == Ok::<Option<Principal>, Error>(Some(p)),
        forall|j: int|
            k < j < n ==> svc_lookup(store, krbtgt_view((#[trigger] hops[j])@)) == Ok::<
                Option<Principal>,
                Error,
            >(None),
    ensures
        alternate_tgs(store, hops, n) == Ok::<Principal, Error>(p),
    decreases n,
{
    if k < n - 1 {
        let x = hops[n - 1];
        law_nearest_hop_answers(store, hops, n - 1, k, p);
    }
}

/// Where no hop behind the first is known, the server is unknown.
pub proof fn law_unknown_hops_refuse<S: PrincipalRead>(store: &S, hops: Seq<String>, n: int)
    requires
        forall|j: int|
            1 <= j < n ==> svc_lookup(store, krbtgt_view((#[trigger] hops[j])@)) == Ok::<
                Option<Principal>,
                Error,
            >(None),
    ensures
        refuses(alternate_tgs(store, hops, n), S_PRINCIPAL_UNKNOWN, Status::UnknownServer),
    decreases n,
{
    if n > 1 {
        let x = hops[n - 1];
        law_unknown_hops_refuse(store, hops, n - 1);
    }
}

/// An unknown server is refused where the request wants another form of the
/// ticket it presents, or is not referred; a referred one gets the
/// ticket-granting service of the realm that it is referred to where that is
/// known, and one on the way there where it is not.
pub proof fn law_unknown_server_is_referred<S: PrincipalRead>(
    store: &S,
    requested: NameView,
    req_realm: Seq<char>,
    body: KdcReqBody,
    host: HostFacts,
    hops: Seq<String>,
)
    requires
        svc_lookup(store, requested) == Ok::<Option<Principal>, Error>(None),
    ensures
        ({
            let o = body.kdc_options;
            let r = spec_search_sprinc(store, requested, req_realm, body, host, hops);
            let form = o.has(crate::flags::FORWARDED as int) || o.has(crate::flags::PROXY as int)
                || o.has(crate::flags::RENEW as int) || o.has(crate::flags::VALIDATE as int)
                || o.has(ENC_TKT_IN_SKEY as int);
            let cross = requested.components.len() == 2 && requested.components[0] == "krbtgt"@
                && requested.components[1] != req_realm;
            let to = referral_realm(store.policy_view(), o, requested, req_realm, host);
            &&& form ==> refuses(r, S_PRINCIPAL_UNKNOWN, Status::LookingUpServer)
            &&& !form && cross ==> r == alternate_tgs(store, hops, hops.len() as int)
            &&& !form && !cross && to is None ==> refuses(
                r,
                S_PRINCIPAL_UNKNOWN,
                Status::LookingUpServer,
            )
            &&& to matches Some(x) ==> !form && !cross ==> {
                &&& svc_lookup(store, krbtgt_view(x)) matches Ok(Some(p)) ==> r == Ok::<
                    Principal,
                    Error,
                >(p)
                &&& svc_lookup(store, krbtgt_view(x)) == Ok::<Option<Principal>, Error>(None)
                    ==> r == alternate_tgs(store, hops, hops.len() as int)
            }
        }),
{
}

/// An answer is a referral exactly where it is a ticket-granting service for a
/// realm other than its own, and was not what the request named.
pub proof fn law_referral_was_not_asked_for(
    requested: NameView,
    req_realm: Seq<char>,
    resolved: Principal,
)
    ensures
        issuing_referral(requested, req_realm, resolved) <==> {
            &&& resolved.name@.components.len() == 2
            &&& resolved.name@.components[0] == "krbtgt"@
            &&& resolved.name@.components[1] != resolved.realm@
            &&& resolved.name@.components != requested.components || resolved.realm@ != req_realm
        },
{
}

/// A database that is out of service is told from one that does not know the
/// server.
pub proof fn law_service_failure_is_told<S: PrincipalRead>(store: &S, name: NameView)
    ensures
        ({
            let l = store.lookup(spec_lookup_principal_id(name, store.realm_view()));
            let r = svc_lookup(store, name);
            &&& l is Ok ==> r == l
            &&& l matches Err(Error::Protocol { code, .. }) ==> code == SVC_UNAVAILABLE ==> (r
                matches Err(Error::Protocol { code: c, text, .. }) && c == SVC_UNAVAILABLE && text
                == Some(Status::LookingUpServer))
            &&& l matches Err(Error::Protocol { code, .. }) ==> code != SVC_UNAVAILABLE ==> refuses(
                r,
                S_PRINCIPAL_UNKNOWN,
                Status::LookingUpServer,
            )
            &&& l matches Err(e) ==> !(e is Protocol) ==> refuses(
                r,
                S_PRINCIPAL_UNKNOWN,
                Status::LookingUpServer,
            )
        }),
{
}

} // verus!
