//! Patterns for principal names.

use crate::error::Error;
use crate::num::value_of;
use crate::text::{
    chars_of, last_position, last_position_of, lemma_last_position, range_string, split,
    split_chars, str_eq, views,
};
use vstd::prelude::*;
use vstd::slice::slice_subrange;
use vstd::string::*;

verus! {

/// A pattern: components and realm, each of which may be `*`.
#[derive(Clone, Debug, PartialEq, Eq)]
pub struct PrincPat {
    /// Components.
    pub components: Vec<String>,
    /// Realm.
    pub realm: String,
}

/// What a pattern says.
#[verifier::ext_equal]
pub struct PatView {
    /// Components.
    pub components: Seq<Seq<char>>,
    /// Realm.
    pub realm: Seq<char>,
}

impl View for PrincPat {
    type V = PatView;

    open spec fn view(&self) -> PatView {
        PatView { components: views(self.components@), realm: self.realm@ }
    }
}

/// Some part is empty.
pub open spec fn has_empty(parts: Seq<Seq<char>>) -> bool {
    exists|i: int| 0 <= i < parts.len() && (#[trigger] parts[i]).len() == 0
}

/// The pattern that a text stands for: components between slashes, none
/// empty, and behind the last `@` the realm, `default_realm` where there is
/// no `@`.
pub open spec fn pattern_of(s: Seq<char>, default_realm: Seq<char>) -> Option<PatView> {
    let at = last_position(s, '@');
    let name = if at >= 0 {
        s.take(at)
    } else {
        s
    };
    let realm = if at >= 0 {
        s.skip(at + 1)
    } else {
        default_realm
    };
    if name.len() == 0 || has_empty(split(name, '/')) {
        None
    } else {
        Some(PatView { components: split(name, '/'), realm })
    }
}

/// The failure of a name that cannot be read.
pub open spec fn bad_name(s: Seq<char>) -> Seq<char> {
    "Cannot parse principal '"@ + s + "'"@
}

/// Whether some part is empty.
fn any_empty(parts: &Vec<String>) -> (r: bool)
    ensures
        r == has_empty(views(parts@)),
{
    let mut i: usize = 0;
    while i < parts.len()
        invariant
            i <= parts.len(),
            forall|k: int| 0 <= k < i ==> (#[trigger] views(parts@)[k]).len() > 0,
        decreases parts.len() - i,
    {
        if parts[i].as_str().is_empty() {
            proof {
                assert(views(parts@)[i as int].len() == 0);
            }
            return true;
        }
        i = i + 1;
    }
    false
}

/// Reads a pattern; names without a realm are in no realm.
pub fn parse_princ_pat(s: &str) -> (r: Result<PrincPat, Error>)
    ensures
        match pattern_of(s@, Seq::empty()) {
            Some(v) => r matches Ok(p) && p@ == v,
            None => r matches Err(Error::AclParse(t)) && t@ == bad_name(s@),
        },
{
    let none = String::new();
    proof {
        assert(none@ =~= Seq::<char>::empty());
    }
    parse_princ_pat_in(s, none.as_str())
}

/// Reads a pattern; names without a realm are in `default_realm`.
pub fn parse_princ_pat_in(s: &str, default_realm: &str) -> (r: Result<PrincPat, Error>)
    ensures
        match pattern_of(s@, default_realm@) {
            Some(v) => r matches Ok(p) && p@ == v,
            None => r matches Err(Error::AclParse(t)) && t@ == bad_name(s@),
        },
{
    let cs = chars_of(s);
    proof {
        lemma_last_position(s@, '@');
    }
    let (end, realm): (usize, String) = match last_position_of(cs.as_slice(), '@') {
        Some(i) => {
            proof {
                assert(cs@.subrange(i + 1, cs@.len() as int) =~= s@.skip(i + 1));
            }
            (i, range_string(cs.as_slice(), i + 1, cs.len()))
        },
        None => (cs.len(), default_realm.to_owned()),
    };
    let name = slice_subrange(cs.as_slice(), 0, end);
    proof {
        if last_position(s@, '@') >= 0 {
            assert(name@ =~= s@.take(end as int));
        } else {
            assert(name@ =~= s@);
        }
    }
    let components = split_chars(name, '/');
    if end == 0 || any_empty(&components) {
        let mut t = "Cannot parse principal '".to_owned();
        t.append(s);
        t.append("'");
        return Err(Error::AclParse(t));
    }
    Ok(PrincPat { components, realm })
}

/// `*`.
pub open spec fn is_star(s: Seq<char>) -> bool {
    s == "*"@
}

/// A part of a pattern matches a part of a name: a wildcard matches all.
pub open spec fn part_matches(pat: Seq<char>, actual: Seq<char>) -> bool {
    is_star(pat) || pat == actual
}

/// The pattern matches the name: as many components, and each part matches.
pub open spec fn spec_match_client(pat: PatView, actual: PatView) -> bool {
    &&& pat.components.len() == actual.components.len()
    &&& part_matches(pat.realm, actual.realm)
    &&& forall|i: int|
        0 <= i < pat.components.len() ==> part_matches(
            #[trigger] pat.components[i],
            actual.components[i],
        )
}

/// What the wildcards of a pattern's first `n` components matched, the first
/// nine of them.
pub open spec fn wildcards_in(pat: PatView, actual: PatView, n: int) -> Seq<Seq<char>>
    decreases n,
{
    if n <= 0 {
        Seq::empty()
    } else {
        let before = wildcards_in(pat, actual, n - 1);
        if is_star(pat.components[n - 1]) && before.len() < 9 {
            before.push(actual.components[n - 1])
        } else {
            before
        }
    }
}

/// What the wildcards of a pattern's components matched.
pub open spec fn wildcards(pat: PatView, actual: PatView) -> Seq<Seq<char>> {
    wildcards_in(pat, actual, pat.components.len() as int)
}

/// Matches a pattern with a name and collects what the wildcards matched.
pub fn match_client(pat: &PrincPat, actual: &PrincPat) -> (r: Option<Vec<String>>)
    ensures
        if spec_match_client(pat@, actual@) {
            r matches Some(v) && views(v@) == wildcards(pat@, actual@)
        } else {
            r is None
        },
{
    if pat.components.len() != actual.components.len() {
        return None;
    }
    if !str_eq(pat.realm.as_str(), "*") && !str_eq(pat.realm.as_str(), actual.realm.as_str()) {
        return None;
    }
    let mut refs: Vec<String> = Vec::new();
    let mut i: usize = 0;
    proof {
        assert(views(refs@) =~= Seq::<Seq<char>>::empty());
    }
    while i < pat.components.len()
        invariant
            i <= pat.components.len(),
            pat.components@.len() == actual.components@.len(),
            views(refs@) == wildcards_in(pat@, actual@, i as int),
            forall|k: int|
                0 <= k < i ==> part_matches(
                    #[trigger] pat@.components[k],
                    actual@.components[k],
                ),
        decreases pat.components.len() - i,
    {
        proof {
            assert(pat@.components[i as int] == pat.components@[i as int]@);
            assert(actual@.components[i as int] == actual.components@[i as int]@);
        }
        if str_eq(pat.components[i].as_str(), "*") {
            if refs.len() < 9 {
                let ghost before = refs@;
                refs.push(actual.components[i].clone());
                proof {
                    assert(views(refs@) =~= views(before).push(actual@.components[i as int]));
                }
            }
        } else if !str_eq(pat.components[i].as_str(), actual.components[i].as_str()) {
            proof {
                assert(!part_matches(pat@.components[i as int], actual@.components[i as int]));
            }
            return None;
        }
        i = i + 1;
    }
    Some(refs)
}

/// Which wildcard a component of a target's pattern refers to: `*1` is the
/// first, `*9` the ninth.
pub open spec fn back_reference(s: Seq<char>) -> Option<int> {
    if s.len() == 2 && s[0] == '*' && '1' <= s[1] && s[1] <= '9' {
        Some(s[1] as int - '1' as int)
    } else {
        None
    }
}

/// A component of a target's pattern matches.
pub open spec fn target_part_matches(
    pat: Seq<char>,
    actual: Seq<char>,
    refs: Seq<Seq<char>>,
) -> bool {
    if is_star(pat) {
        true
    } else {
        match back_reference(pat) {
            Some(n) => n < refs.len() && refs[n] == actual,
            None => pat == actual,
        }
    }
}

/// The target's pattern matches the target.
pub open spec fn spec_match_target(
    pat: PatView,
    actual: PatView,
    refs: Seq<Seq<char>>,
) -> bool {
    &&& pat.components.len() == actual.components.len()
    &&& part_matches(pat.realm, actual.realm)
    &&& forall|i: int|
        0 <= i < pat.components.len() ==> target_part_matches(
            #[trigger] pat.components[i],
            actual.components[i],
            refs,
        )
}

/// Which wildcard a component refers to.
fn back_reference_of(s: &str) -> (r: Option<usize>)
    ensures
        match r {
            Some(n) => back_reference(s@) == Some(n as int),
            None => back_reference(s@) is None,
        },
{
    let cs = chars_of(s);
    if cs.len() == 2 && cs[0] == '*' {
        match value_of(cs[1]) {
            Some(d) => {
                if 1 <= d && d <= 9 {
                    return Some((d - 1) as usize);
                }
            },
            None => {},
        }
    }
    None
}

/// Matches a target's pattern with a target.
pub fn match_target(pat: &PrincPat, actual: &PrincPat, refs: &Vec<String>) -> (r: bool)
    ensures
        r == spec_match_target(pat@, actual@, views(refs@)),
{
    if pat.components.len() != actual.components.len() {
        return false;
    }
    if !str_eq(pat.realm.as_str(), "*") && !str_eq(pat.realm.as_str(), actual.realm.as_str()) {
        return false;
    }
    let mut i: usize = 0;
    while i < pat.components.len()
        invariant
            i <= pat.components.len(),
            pat.components@.len() == actual.components@.len(),
            forall|k: int|
                0 <= k < i ==> target_part_matches(
                    #[trigger] pat@.components[k],
                    actual@.components[k],
                    views(refs@),
                ),
        decreases pat.components.len() - i,
    {
        proof {
            assert(pat@.components[i as int] == pat.components@[i as int]@);
            assert(actual@.components[i as int] == actual.components@[i as int]@);
        }
        let p = pat.components[i].as_str();
        let a = actual.components[i].as_str();
        let ok: bool = if str_eq(p, "*") {
            true
        } else {
            match back_reference_of(p) {
                Some(n) => n < refs.len() && str_eq(refs[n].as_str(), a),
                None => str_eq(p, a),
            }
        };
        if !ok {
            proof {
                assert(!target_part_matches(
                    pat@.components[i as int],
                    actual@.components[i as int],
                    views(refs@),
                ));
            }
            return false;
        }
        i = i + 1;
    }
    true
}

/// A pattern without wildcards matches exactly the name that it spells.
pub proof fn law_exact_pattern(pat: PatView, actual: PatView)
    requires
        !is_star(pat.realm),
        forall|i: int| 0 <= i < pat.components.len() ==> !is_star(#[trigger] pat.components[i]),
    ensures
        spec_match_client(pat, actual) == (pat == actual),
{
    if spec_match_client(pat, actual) {
        assert(pat.components =~= actual.components) by {
            assert forall|i: int| 0 <= i < pat.components.len() implies pat.components[i]
                == actual.components[i] by {
                assert(part_matches(pat.components[i], actual.components[i]));
            }
        }
    }
}

/// A pattern of another length than the name does not match, and neither does one
/// with a part that is no wildcard and differs; a wildcard matches any part.
pub proof fn law_each_part_decides(pat: PatView, actual: PatView, i: int)
    requires
        0 <= i < pat.components.len(),
    ensures
        pat.components.len() != actual.components.len() ==> !spec_match_client(pat, actual),
        pat.realm != "*"@ && pat.realm != actual.realm ==> !spec_match_client(pat, actual),
        pat.components[i] != "*"@ && pat.components[i] != actual.components[i]
            ==> !spec_match_client(pat, actual),
        spec_match_client(pat, actual) ==> spec_match_client(
            PatView { components: pat.components.update(i, "*"@), ..pat },
            actual,
        ),
        spec_match_client(pat, actual) ==> spec_match_client(
            PatView { realm: "*"@, ..pat },
            actual,
        ),
{
    if spec_match_client(pat, actual) {
        assert(part_matches(pat.components[i], actual.components[i]));
    }
}

/// A target of another length does not match, and neither does one in a realm that
/// the pattern does not match; a component that refers back matches what that
/// wildcard of the client's pattern matched, and nothing where there is none.
pub proof fn law_back_references_match_what_was_matched(
    pat: PatView,
    actual: PatView,
    refs: Seq<Seq<char>>,
    i: int,
    n: int,
)
    requires
        0 <= i < pat.components.len(),
        spec_match_target(pat, actual, refs),
        pat.components[i].len() == 2,
        pat.components[i][0] == '*',
        pat.components[i][1] as int == '1' as int + n,
        0 <= n < 9,
    ensures
        pat.components.len() == actual.components.len(),
        pat.realm == "*"@ || pat.realm == actual.realm,
        n < refs.len() && actual.components[i] == refs[n],
{
    reveal_strlit("*");
    assert(target_part_matches(pat.components[i], actual.components[i], refs));
    assert(pat.components[i] != "*"@);
}

/// Where a target's pattern refers back to nothing, it matches as a client's does.
pub proof fn law_plain_target_matches_as_a_client(
    pat: PatView,
    actual: PatView,
    refs: Seq<Seq<char>>,
)
    requires
        forall|i: int|
            0 <= i < pat.components.len() ==> (#[trigger] pat.components[i]).len() != 2
                || pat.components[i][0] != '*',
    ensures
        spec_match_target(pat, actual, refs) <==> spec_match_client(pat, actual),
{
    assert forall|i: int| 0 <= i < pat.components.len() implies target_part_matches(
        #[trigger] pat.components[i],
        actual.components[i],
        refs,
    ) == part_matches(pat.components[i], actual.components[i]) by {}
    if spec_match_client(pat, actual) {
        assert forall|i: int| 0 <= i < pat.components.len() implies target_part_matches(
            #[trigger] pat.components[i],
            actual.components[i],
            refs,
        ) by {
            assert(part_matches(pat.components[i], actual.components[i]));
        }
    }
    if spec_match_target(pat, actual, refs) {
        assert forall|i: int| 0 <= i < pat.components.len() implies part_matches(
            #[trigger] pat.components[i],
            actual.components[i],
        ) by {
            assert(target_part_matches(pat.components[i], actual.components[i], refs));
        }
    }
}

} // verus!
