use vstd::prelude::*;
use vstd::string::*;

use crate::decimal::{dec_rep, u64_to_dec};
use crate::errors::{CommandError, ParseError};
use crate::lex::{
    lemma_lex_antisym, lemma_lex_refl, lemma_lex_total, lemma_lex_trans, lex_leq, lex_lt, str_le,
    string_eq,
};

verus! {

broadcast use vstd::seq_lib::group_to_multiset_ensures, vstd::multiset::group_multiset_axioms;

/// The character sequences of a sequence of strings.
pub open spec fn views(s: Seq<String>) -> Seq<Seq<char>> {
    Seq::new(s.len(), |i: int| s[i]@)
}

/// Pairwise lexicographic sortedness, in ascending order.
pub open spec fn lex_sorted(s: Seq<Seq<char>>) -> bool {
    forall|i: int, j: int| 0 <= i < j < s.len() ==> lex_leq(s[i], s[j])
}

/// The comparison operator of a version constraint.
#[derive(Clone, Copy, Debug, PartialEq, Eq, Structural)]
pub enum ConstraintOp {
    Exact,
    Greater,
    GreaterEq,
    Less,
    LessEq,
    Tilde,
    Caret,
    Wildcard,
}

/// One version comparator: an operator and a version whose minor and patch
/// parts may be absent, as in `^1` or `>=1.2`. Only the first comparator of a
/// requirement is kept; the rest of a compound range is discarded.
#[derive(Clone, Copy, Debug, PartialEq, Eq)]
pub struct VersionConstraint {
    pub op: ConstraintOp,
    pub major: u64,
    pub minor: Option<u64>,
    pub patch: Option<u64>,
}

/// The numeral "major.minor.patch".
pub open spec fn triple_rep(major: int, minor: int, patch: int) -> Seq<char> {
    dec_rep(major) + seq!['.'] + dec_rep(minor) + seq!['.'] + dec_rep(patch)
}

/// Whether a version equals the constraint's own triple, on the parts the
/// constraint has. Restates semver's `=` (and wildcard) matching for
/// prerelease-free versions.
pub open spec fn matches_exact(c: VersionConstraint, ma: u64, mi: u64, pa: u64) -> bool {
    &&& ma == c.major
    &&& (c.minor matches Some(m) ==> mi == m)
    &&& (c.patch matches Some(p) ==> pa == p)
}

/// Whether a version lies strictly above the constraint's triple. Restates
/// semver's `>` matching for prerelease-free versions: a constraint with an
/// absent minor or patch part is never exceeded by a prerelease-free version
/// that agrees on the parts it has.
pub open spec fn matches_greater(c: VersionConstraint, ma: u64, mi: u64, pa: u64) -> bool {
    if ma != c.major {
        ma > c.major
    } else if c.minor is None {
        false
    } else if mi != c.minor->0 {
        mi > c.minor->0
    } else if c.patch is None {
        false
    } else if pa != c.patch->0 {
        pa > c.patch->0
    } else {
        false
    }
}

/// Whether a version lies strictly below the constraint's triple. Restates
/// semver's `<` matching for prerelease-free versions.
pub open spec fn matches_less(c: VersionConstraint, ma: u64, mi: u64, pa: u64) -> bool {
    if ma != c.major {
        ma < c.major
    } else if c.minor is None {
        false
    } else if mi != c.minor->0 {
        mi < c.minor->0
    } else if c.patch is None {
        false
    } else if pa != c.patch->0 {
        pa < c.patch->0
    } else {
        false
    }
}

/// Restates semver's `~` matching for prerelease-free versions: the major and
/// minor parts must agree where given, and the patch part may grow.
pub open spec fn matches_tilde(c: VersionConstraint, ma: u64, mi: u64, pa: u64) -> bool {
    if ma != c.major {
        false
    } else if c.minor is Some && mi != c.minor->0 {
        false
    } else if c.patch is Some && pa != c.patch->0 {
        pa > c.patch->0
    } else {
        true
    }
}

/// Restates semver's `^` matching for prerelease-free versions: parts to the
/// right of the first nonzero given part may grow.
pub open spec fn matches_caret(c: VersionConstraint, ma: u64, mi: u64, pa: u64) -> bool {
    if ma != c.major {
        false
    } else if c.minor is None {
        true
    } else if c.patch is None {
        if c.major > 0 {
            mi >= c.minor->0
        } else {
            mi == c.minor->0
        }
    } else {
        if c.major > 0 {
            if mi != c.minor->0 {
                mi > c.minor->0
            } else if pa != c.patch->0 {
                pa > c.patch->0
            } else {
                true
            }
        } else if c.minor->0 > 0 {
            if mi != c.minor->0 {
                false
            } else if pa != c.patch->0 {
                pa > c.patch->0
            } else {
                true
            }
        } else {
            mi == c.minor->0 && pa == c.patch->0
        }
    }
}

/// Whether the prerelease-free version `ma.mi.pa` satisfies the constraint,
/// with semver's documented meaning of each operator.
pub open spec fn constraint_matches(c: VersionConstraint, ma: u64, mi: u64, pa: u64) -> bool {
    match c.op {
        ConstraintOp::Exact => matches_exact(c, ma, mi, pa),
        ConstraintOp::Wildcard => matches_exact(c, ma, mi, pa),
        ConstraintOp::Greater => matches_greater(c, ma, mi, pa),
        ConstraintOp::GreaterEq => matches_exact(c, ma, mi, pa) || matches_greater(c, ma, mi, pa),
        ConstraintOp::Less => matches_less(c, ma, mi, pa),
        ConstraintOp::LessEq => matches_exact(c, ma, mi, pa) || matches_less(c, ma, mi, pa),
        ConstraintOp::Tilde => matches_tilde(c, ma, mi, pa),
        ConstraintOp::Caret => matches_caret(c, ma, mi, pa),
    }
}

/// The index of the first '@' in `s`, or `s.len()` when there is none.
pub open spec fn first_at(s: Seq<char>) -> int
    decreases s.len(),
{
    if s.len() == 0 {
        0
    } else if s[0] == '@' {
        0
    } else {
        1 + first_at(s.drop_first())
    }
}

/// The package name in a specifier: everything before the first '@', or the
/// whole specifier when there is none.
pub open spec fn name_part(s: Seq<char>) -> Seq<char> {
    s.subrange(0, first_at(s))
}

/// The constraint text in a specifier: the characters between the first '@'
/// and the next '@' or the end.
pub open spec fn version_part(s: Seq<char>) -> Seq<char> {
    let rest = s.subrange(first_at(s) + 1, s.len() as int);
    rest.subrange(0, first_at(rest))
}

/// `first_at` is the index of the first '@': nothing before it is one, and it
/// is one itself unless the sequence has none.
pub proof fn lemma_first_at(s: Seq<char>)
    ensures
        0 <= first_at(s) <= s.len(),
        forall|j: int| 0 <= j < first_at(s) ==> s[j] != '@',
        first_at(s) < s.len() ==> s[first_at(s)] == '@',
    decreases s.len(),
{
    if s.len() == 0 {
    } else if s[0] == '@' {
    } else {
        lemma_first_at(s.drop_first());
        assert forall|j: int| 0 <= j < first_at(s) implies s[j] != '@' by {
            if j > 0 {
                assert(s[j] == s.drop_first()[j - 1]);
            }
        }
        if first_at(s) < s.len() {
            assert(s[first_at(s)] == s.drop_first()[first_at(s) - 1]);
        }
    }
}

/// An index with no '@' before it, and one at it unless it is the end, is
/// `first_at`.
proof fn lemma_first_at_unique(s: Seq<char>, i: int)
    requires
        0 <= i <= s.len(),
        forall|j: int| 0 <= j < i ==> s[j] != '@',
        i < s.len() ==> s[i] == '@',
    ensures
        i == first_at(s),
{
    lemma_first_at(s);
    if i < first_at(s) {
        assert(s[i] != '@');
    } else if first_at(s) < i {
        assert(s[first_at(s)] == '@');
    }
}

/// The index of the first '@' at or after `start`, or the length when there
/// is none there.
fn find_at_from(s: &str, start: usize) -> (r: usize)
    requires
        start <= s@.len(),
    ensures
        start <= r <= s@.len(),
        forall|j: int| start <= j < r ==> s@[j] != '@',
        r < s@.len() ==> s@[r as int] == '@',
{
    let n = s.unicode_len();
    let mut i: usize = start;
    while i < n
        invariant
            start <= i <= n,
            n == s@.len(),
            forall|j: int| start <= j < i ==> s@[j] != '@',
        decreases n - i,
    {
        if s.get_char(i) == '@' {
            return i;
        }
        i = i + 1;
    }
    n
}

/// The comparators of the version requirement written in `s`, in order, each
/// as its operator, major, and optional minor and patch parts (a comparator's
/// prerelease part is not kept): `None` when `s` does not parse as a
/// requirement, and an empty sequence for a requirement with no comparator at
/// all (a lone wildcard).
pub uninterp spec fn req_comparators(s: Seq<char>) -> Option<Seq<VersionConstraint>>;

/// What `s` reads as when parsed as a semantic version: its numeric triple,
/// and whether it carries a prerelease part; `None` when `s` is not a
/// semantic version. A build part affects whether `s` parses, nothing here.
pub uninterp spec fn semver_parts(s: Seq<char>) -> Option<(u64, u64, u64, bool)>;

/// The triple a catalog entry counts as: its parsed triple, or `0.0.0` for an
/// entry that is not a semantic version, so that such an entry never satisfies
/// a positive lower bound.
pub open spec fn catalog_triple(s: Seq<char>) -> (u64, u64, u64) {
    match semver_parts(s) {
        Some(t) => (t.0, t.1, t.2),
        None => (0u64, 0u64, 0u64),
    }
}

/// Whether a catalog entry carries a prerelease part, as in "1.2.0-alpha".
pub open spec fn catalog_has_prerelease(s: Seq<char>) -> bool {
    match semver_parts(s) {
        Some(t) => t.3,
        None => false,
    }
}

/// Whether a catalog entry satisfies the constraint, with standard semver
/// matching. The model's comparators carry no prerelease part, and under
/// semver's rules no version with a prerelease ever satisfies such a
/// comparator: the entry must be prerelease-free and its triple must satisfy
/// the operator.
pub open spec fn catalog_matches(c: VersionConstraint, s: Seq<char>) -> bool {
    &&& !catalog_has_prerelease(s)
    &&& constraint_matches(c, catalog_triple(s).0, catalog_triple(s).1, catalog_triple(s).2)
}

/// Relies on semver::VersionReq::parse: returns the requirement's comparators
/// in order, each with its operator, major, minor and patch parts moved over
/// (a comparator's prerelease part is not kept), and the parser's message
/// when the text does not parse.
#[verifier::external_body]
fn parse_requirement(s: &str) -> (r: Result<Vec<VersionConstraint>, String>)
    ensures
        r matches Ok(cs) ==> req_comparators(s@) == Some(cs@),
        r is Err <==> req_comparators(s@) is None,
{
    let req = match semver::VersionReq::parse(s) {
        Ok(req) => req,
        Err(e) => return Err(e.to_string()),
    };
    Ok(req.comparators.iter().map(|c| VersionConstraint {
        op: match c.op {
            semver::Op::Exact => ConstraintOp::Exact, semver::Op::Greater => ConstraintOp::Greater,
            semver::Op::GreaterEq => ConstraintOp::GreaterEq, semver::Op::Less => ConstraintOp::Less,
            semver::Op::LessEq => ConstraintOp::LessEq, semver::Op::Tilde => ConstraintOp::Tilde,
            semver::Op::Caret => ConstraintOp::Caret, _ => ConstraintOp::Wildcard,
        },
        major: c.major, minor: c.minor, patch: c.patch,
    }).collect())
}

/// Relies on semver::Version::parse: the numeric triple of `s` read as a
/// semantic version and whether it carries a prerelease part, or `None` when
/// `s` is not one.
#[verifier::external_body]
fn parse_version_parts(s: &str) -> (r: Option<(u64, u64, u64, bool)>)
    ensures
        r == semver_parts(s@),
{
    match semver::Version::parse(s) {
        Ok(v) => Some((v.major, v.minor, v.patch, !v.pre.is_empty())),
        Err(_) => None,
    }
}

/// Relies on semver::Comparator::matches, on the comparator rebuilt from the
/// constraint's fields with an empty prerelease and the version built from the
/// numeric triple: for such inputs it equals `constraint_matches`, which
/// restates the operator semantics the semver crate documents.
#[verifier::external_body]
fn comparator_matches(c: &VersionConstraint, ma: u64, mi: u64, pa: u64) -> (r: bool)
    ensures
        r == constraint_matches(*c, ma, mi, pa),
{
    let cmp = semver::Comparator {
        op: match c.op {
            ConstraintOp::Exact => semver::Op::Exact, ConstraintOp::Greater => semver::Op::Greater,
            ConstraintOp::GreaterEq => semver::Op::GreaterEq, ConstraintOp::Less => semver::Op::Less,
            ConstraintOp::LessEq => semver::Op::LessEq, ConstraintOp::Tilde => semver::Op::Tilde,
            ConstraintOp::Caret => semver::Op::Caret, ConstraintOp::Wildcard => semver::Op::Wildcard,
        },
        major: c.major, minor: c.minor, patch: c.patch, pre: semver::Prerelease::EMPTY,
    };
    cmp.matches(&semver::Version::new(ma, mi, pa))
}

/// Step A of resolution, as a function of the constraint alone. `None` means
/// the constraint cannot be resolved without the registry's full listing.
pub open spec fn full_resolution(c: Option<VersionConstraint>) -> Option<Seq<char>> {
    match c {
        None => Some("latest"@),
        Some(c) => {
            if c.minor is None || c.patch is None {
                None
            } else {
                match c.op {
                    ConstraintOp::Greater => Some("latest"@),
                    ConstraintOp::GreaterEq => Some("latest"@),
                    ConstraintOp::Wildcard => Some("latest"@),
                    ConstraintOp::Exact => Some(
                        triple_rep(c.major as int, c.minor->0 as int, c.patch->0 as int),
                    ),
                    ConstraintOp::LessEq => Some(
                        triple_rep(c.major as int, c.minor->0 as int, c.patch->0 as int),
                    ),
                    ConstraintOp::Tilde => Some(
                        triple_rep(c.major as int, c.minor->0 as int, c.patch->0 as int),
                    ),
                    ConstraintOp::Caret => Some(
                        triple_rep(c.major as int, c.minor->0 as int, c.patch->0 as int),
                    ),
                    ConstraintOp::Less => None,
                }
            }
        },
    }
}

/// No constraint, or the literal "latest", resolves fully to "latest": no
/// catalog is ever needed for such a specifier.
pub proof fn lemma_no_constraint_resolves_latest()
    ensures
        full_resolution(None) == Some("latest"@),
{
}

/// An exact constraint with all three parts resolves fully to its own triple.
pub proof fn lemma_exact_constraint_resolves_itself(c: VersionConstraint)
    requires
        c.op == ConstraintOp::Exact,
        c.minor is Some,
        c.patch is Some,
    ensures
        full_resolution(Some(c)) == Some(
            triple_rep(c.major as int, c.minor->0 as int, c.patch->0 as int),
        ),
{
}

/// A bare `major.minor.patch` constraint — a caret requirement with all three
/// parts, which is how a specifier like `name@1.2.3` parses — also resolves
/// fully to its own triple.
pub proof fn lemma_bare_triple_resolves_itself(c: VersionConstraint)
    requires
        c.op == ConstraintOp::Caret,
        c.minor is Some,
        c.patch is Some,
    ensures
        full_resolution(Some(c)) == Some(
            triple_rep(c.major as int, c.minor->0 as int, c.patch->0 as int),
        ),
{
}

/// A constraint missing its minor or patch part never resolves fully: the
/// registry's full listing is always required for it.
pub proof fn lemma_partial_constraint_defers(c: VersionConstraint)
    requires
        c.minor is None || c.patch is None,
    ensures
        full_resolution(Some(c)) is None,
{
}

/// Removing one string removes its view.
proof fn lemma_views_remove(s: Seq<String>, i: int)
    requires
        0 <= i < s.len(),
    ensures
        views(s.remove(i)) =~= views(s).remove(i),
{
    s.remove_ensures(i);
    views(s).remove_ensures(i);
}

/// Pushing one string pushes its view.
proof fn lemma_views_push(s: Seq<String>, x: String)
    ensures
        views(s.push(x)) =~= views(s).push(x@),
{
}

/// Sequences holding the same multiset hold the same members.
proof fn lemma_same_multiset_same_members(a: Seq<Seq<char>>, b: Seq<Seq<char>>)
    requires
        a.to_multiset() == b.to_multiset(),
    ensures
        forall|x: Seq<char>| a.contains(x) <==> b.contains(x),
{
    assert forall|x: Seq<char>| a.contains(x) <==> b.contains(x) by {
        vstd::seq_lib::to_multiset_contains(a, x);
        vstd::seq_lib::to_multiset_contains(b, x);
        assert(a.to_multiset().count(x) == b.to_multiset().count(x));
    }
}

/// The first position of `target` in `vs`, by characters.
fn position_of(vs: &Vec<String>, target: &String) -> (r: Option<usize>)
    ensures
        match r {
            Some(p) => p < vs@.len() && views(vs@)[p as int] == target@ && (forall|j: int|
                0 <= j < p ==> views(vs@)[j] != target@),
            None => forall|j: int| 0 <= j < vs@.len() ==> views(vs@)[j] != target@,
        },
{
    let mut i: usize = 0;
    while i < vs.len()
        invariant
            i <= vs@.len(),
            forall|j: int| 0 <= j < i ==> views(vs@)[j] != target@,
        decreases vs@.len() - i,
    {
        if string_eq(&vs[i], target) {
            return Some(i);
        }
        i = i + 1;
    }
    None
}

/// The index of a least element of a non-empty vector of strings.
fn min_index(vs: &Vec<String>) -> (r: usize)
    requires
        vs@.len() > 0,
    ensures
        r < vs@.len(),
        forall|j: int| 0 <= j < vs@.len() ==> lex_leq(vs@[r as int]@, vs@[j]@),
{
    let mut mi: usize = 0;
    let mut k: usize = 1;
    proof {
        lemma_lex_refl(vs@[0]@);
    }
    while k < vs.len()
        invariant
            mi < k,
            k <= vs@.len(),
            vs@.len() > 0,
            forall|j: int| 0 <= j < k ==> lex_leq(vs@[mi as int]@, vs@[j]@),
        decreases vs@.len() - k,
    {
        if str_le(&vs[k], &vs[mi]) {
            proof {
                lemma_lex_refl(vs@[k as int]@);
                assert forall|j: int| 0 <= j < k + 1 implies lex_leq(vs@[k as int]@, vs@[j]@) by {
                    if j < k {
                        lemma_lex_trans(vs@[k as int]@, vs@[mi as int]@, vs@[j]@);
                    }
                }
            }
            mi = k;
        } else {
            proof {
                lemma_lex_total(vs@[k as int]@, vs@[mi as int]@);
            }
        }
        k = k + 1;
    }
    mi
}

/// The version resolution engine.
pub struct Versions;

impl Versions {
    /// Renders a version triple as "major.minor.patch".
    pub fn to_string(major: u64, minor: u64, patch: u64) -> (r: String)
        ensures
            r@ =~= triple_rep(major as int, minor as int, patch as int),
    {
        proof {
            reveal_strlit(".");
        }
        let mut s = u64_to_dec(major);
        s.append(".");
        let m = u64_to_dec(minor);
        s.append(m.as_str());
        s.append(".");
        let p = u64_to_dec(patch);
        s.append(p.as_str());
        s
    }

    /// Sorts version strings in ascending lexicographic order of the raw
    /// strings. The resolver imposes this order on a catalog before scanning
    /// it; the order is not semantic-version-aware, a known limitation that
    /// callers of the resolver inherit.
    pub fn sort(versions_vec: &mut Vec<String>)
        ensures
            lex_sorted(views(final(versions_vec)@)),
            views(final(versions_vec)@).to_multiset() == views(old(versions_vec)@).to_multiset(),
    {
        let ghost orig = views(old(versions_vec)@);
        let mut out: Vec<String> = Vec::new();
        proof {
            assert(views(out@) =~= Seq::<Seq<char>>::empty());
            assert(views(out@).to_multiset().add(views(versions_vec@).to_multiset())
                =~= orig.to_multiset());
        }
        while versions_vec.len() > 0
            invariant
                views(out@).to_multiset().add(views(versions_vec@).to_multiset())
                    == orig.to_multiset(),
                lex_sorted(views(out@)),
                forall|i: int, j: int|
                    0 <= i < out@.len() && 0 <= j < versions_vec@.len() ==> lex_leq(
                        views(out@)[i],
                        views(versions_vec@)[j],
                    ),
            decreases versions_vec@.len(),
        {
            let ghost prev_out = out@;
            let ghost prev_rest = versions_vec@;
            let mi = min_index(versions_vec);
            let x = versions_vec.remove(mi);
            out.push(x);
            proof {
                lemma_views_remove(prev_rest, mi as int);
                lemma_views_push(prev_out, x);
                assert(views(prev_rest)[mi as int] == x@);
                assert(views(versions_vec@).to_multiset() =~= views(prev_rest).to_multiset()
                    .remove(x@));
                assert(views(out@).to_multiset() =~= views(prev_out).to_multiset().insert(x@));
                assert(views(prev_rest).contains(views(prev_rest)[mi as int]));
                assert(views(prev_rest).to_multiset().count(x@) > 0);
                assert(views(out@).to_multiset().add(views(versions_vec@).to_multiset())
                    =~= orig.to_multiset()) by {
                    assert forall|e: Seq<char>|
                        views(out@).to_multiset().add(views(versions_vec@).to_multiset()).count(e)
                            == orig.to_multiset().count(e) by {
                        assert(views(prev_out).to_multiset().add(views(prev_rest).to_multiset())
                            .count(e) == orig.to_multiset().count(e));
                    }
                }
                assert(lex_sorted(views(out@))) by {
                    assert forall|i: int, j: int|
                        0 <= i < j < views(out@).len() implies lex_leq(
                        views(out@)[i],
                        views(out@)[j],
                    ) by {
                        if j == views(out@).len() - 1 {
                            assert(views(out@)[i] == views(prev_out)[i]);
                            assert(views(out@)[j] == x@);
                        } else {
                            assert(views(out@)[i] == views(prev_out)[i]);
                            assert(views(out@)[j] == views(prev_out)[j]);
                        }
                    }
                }
                assert forall|i: int, j: int|
                    0 <= i < out@.len() && 0 <= j < versions_vec@.len() implies lex_leq(
                    views(out@)[i],
                    views(versions_vec@)[j],
                ) by {
                    let jj = if j < mi as int {
                        j
                    } else {
                        j + 1
                    };
                    assert(views(versions_vec@)[j] == views(prev_rest)[jj]);
                    if i < out@.len() - 1 {
                        assert(views(out@)[i] == views(prev_out)[i]);
                    } else {
                        assert(views(out@)[i] == x@);
                    }
                }
            }
        }
        proof {
            assert(views(versions_vec@) =~= Seq::<Seq<char>>::empty());
            assert(views(out@).to_multiset().add(Seq::<Seq<char>>::empty().to_multiset())
                =~= views(out@).to_multiset());
        }
        *versions_vec = out;
    }

    /// Splits a package specifier `name[@constraint]` into the name and its
    /// parsed constraint. No '@', or the literal constraint "latest", means no
    /// constraint; otherwise the text up to the next '@' or the end is parsed
    /// as a version requirement and its first comparator kept. A requirement
    /// that parses but holds no comparator — a lone wildcard, as in `name@*`
    /// — is deliberately taken as no constraint, so such a specifier resolves
    /// to "latest" like a bare name; it is not an error. A specifier with an
    /// empty name is a caller error and is ruled out.
    pub fn parse_package_details(details: String) -> (r: Result<
        (String, Option<VersionConstraint>),
        ParseError,
    >)
        requires
            details@.len() > 0,
            details@[0] != '@',
        ensures
            ({
                let s = details@;
                if first_at(s) == s.len() {
                    r matches Ok(p) && p.0@ == s && p.1 is None
                } else if version_part(s) == "latest"@ {
                    r matches Ok(p) && p.0@ == name_part(s) && p.1 is None
                } else {
                    match req_comparators(version_part(s)) {
                        None => r matches Err(e) && e is InvalidVersionNotation,
                        Some(cs) => {
                            if cs.len() == 0 {
                                r matches Ok(p) && p.0@ == name_part(s) && p.1 is None
                            } else {
                                r matches Ok(p) && p.0@ == name_part(s) && p.1 == Some(cs[0])
                            }
                        },
                    }
                }
            }),
    {
        let s = details.as_str();
        let n = s.unicode_len();
        let at1 = find_at_from(s, 0);
        proof {
            lemma_first_at_unique(details@, at1 as int);
        }
        if at1 == n {
            return Ok((details, None));
        }
        let name = s.substring_char(0, at1).to_owned();
        let at2 = find_at_from(s, at1 + 1);
        let ver = s.substring_char(at1 + 1, at2);
        proof {
            let rest = details@.subrange(at1 + 1, details@.len() as int);
            assert forall|j: int| 0 <= j < at2 - (at1 + 1) implies rest[j] != '@' by {
                assert(rest[j] == details@[j + at1 + 1]);
            }
            if at2 < details@.len() {
                assert(rest[at2 - (at1 + 1)] == details@[at2 as int]);
            }
            lemma_first_at_unique(rest, at2 - (at1 + 1));
            assert(ver@ =~= version_part(details@));
        }
        let latest = String::from_str("latest");
        let ver_string = ver.to_owned();
        if string_eq(&ver_string, &latest) {
            return Ok((name, None));
        }
        match parse_requirement(ver) {
            Ok(comparators) => {
                // only the first comparator of a compound range is retained
                if comparators.len() == 0 {
                    Ok((name, None))
                } else {
                    let c = comparators[0];
                    Ok((name, Some(c)))
                }
            },
            Err(m) => Err(ParseError::InvalidVersionNotation(m)),
        }
    }

    /// Step A of resolution. A missing constraint resolves to "latest"; a
    /// constraint with all three parts resolves from the constraint alone,
    /// except a strict upper bound; `None` asks the caller to fetch the full
    /// version listing and run `resolve_partial_version`.
    pub fn resolve_full_version(semantic_version: Option<&VersionConstraint>) -> (r: Option<
        String,
    >)
        ensures
            ({
                let m = full_resolution(
                    match semantic_version {
                        Some(c) => Some(*c),
                        None => None,
                    },
                );
                &&& r is Some <==> m is Some
                &&& r matches Some(s) ==> m == Some(s@)
            }),
    {
        let semantic_version = match semantic_version {
            Some(semantic_version) => semantic_version,
            None => {
                return Some(String::from_str("latest"));
            },
        };
        let (minor, patch) = match (semantic_version.minor, semantic_version.patch) {
            (Some(minor), Some(patch)) => (minor, patch),
            _ => {
                return None;
            },
        };
        match semantic_version.op {
            ConstraintOp::Greater | ConstraintOp::GreaterEq | ConstraintOp::Wildcard => Some(
                String::from_str("latest"),
            ),
            ConstraintOp::Exact | ConstraintOp::LessEq | ConstraintOp::Tilde
                | ConstraintOp::Caret => Some(
                Self::to_string(semantic_version.major, minor, patch),
            ),
            _ => None,
        }
    }

    /// Step B of resolution, run only when step A returned `None`, with the
    /// registry's full listing in hand. The catalog's entries are taken in
    /// ascending raw-string order. A strict upper bound with all three parts
    /// looks its own triple up and takes the entry just below it; failing
    /// either, the constraint cannot be satisfied. Any other constraint takes
    /// the last entry, in that order, that satisfies it under standard semver
    /// matching: an entry that is no semantic version counts as `0.0.0`, and
    /// an entry carrying a prerelease part never satisfies the constraint.
    pub fn resolve_partial_version(
        semantic_version: Option<&VersionConstraint>,
        available_versions: &Vec<String>,
    ) -> (r: Result<String, CommandError>)
        requires
            semantic_version is Some,
        ensures
            ({
                let c = *(semantic_version->0);
                let cat = views(available_versions@);
                if c.op == ConstraintOp::Less && c.minor is Some && c.patch is Some {
                    let t = triple_rep(c.major as int, c.minor->0 as int, c.patch->0 as int);
                    if !cat.contains(t) {
                        r == Err::<String, CommandError>(CommandError::InvalidVersion)
                    } else if !(exists|v: Seq<char>| cat.contains(v) && lex_lt(v, t)) {
                        r == Err::<String, CommandError>(CommandError::InvalidVersion)
                    } else {
                        r matches Ok(s) && cat.contains(s@) && lex_lt(s@, t) && (forall|
                            v: Seq<char>,
                        |
                            cat.contains(v) && lex_lt(v, t) ==> lex_leq(v, s@))
                    }
                } else {
                    if exists|v: Seq<char>| cat.contains(v) && catalog_matches(c, v) {
                        r matches Ok(s) && cat.contains(s@) && catalog_matches(c, s@) && (forall|
                            v: Seq<char>,
                        |
                            cat.contains(v) && catalog_matches(c, v) ==> lex_leq(v, s@))
                    } else {
                        r == Err::<String, CommandError>(CommandError::InvalidVersion)
                    }
                }
            }),
    {
        let cc: VersionConstraint = *semantic_version.unwrap();
        let ghost cat = views(available_versions@);

        let mut vs: Vec<String> = Vec::new();
        let mut i: usize = 0;
        while i < available_versions.len()
            invariant
                i <= available_versions@.len(),
                vs@ == available_versions@.subrange(0, i as int),
            decreases available_versions@.len() - i,
        {
            let s = available_versions[i].clone();
            vs.push(s);
            i = i + 1;
            proof {
                assert(vs@ =~= available_versions@.subrange(0, i as int));
            }
        }
        proof {
            assert(available_versions@.subrange(0, available_versions@.len() as int)
                =~= available_versions@);
        }
        Versions::sort(&mut vs);
        proof {
            lemma_same_multiset_same_members(views(vs@), cat);
        }

        if cc.op == ConstraintOp::Less && cc.minor.is_some() && cc.patch.is_some() {
            let minor = cc.minor.unwrap();
            let patch = cc.patch.unwrap();
            let target = Self::to_string(cc.major, minor, patch);
            let ghost t = triple_rep(cc.major as int, minor as int, patch as int);
            let ghost sv = views(vs@);
            match position_of(&vs, &target) {
                None => {
                    proof {
                        assert(!sv.contains(t));
                        assert(!cat.contains(t));
                    }
                    return Err(CommandError::InvalidVersion);
                },
                Some(p) => {
                    proof {
                        assert(sv[p as int] == t);
                        assert(sv.contains(sv[p as int]));
                        assert(cat.contains(t));
                    }
                    if p == 0 {
                        proof {
                            assert forall|v: Seq<char>| cat.contains(v) implies !lex_lt(v, t) by {
                                assert(sv.contains(v));
                                let idx = choose|idx: int|
                                    0 <= idx < sv.len() && sv[idx] == v;
                                if lex_lt(v, t) {
                                    if idx == 0 {
                                        assert(v == t);
                                    } else {
                                        assert(lex_leq(sv[0], sv[idx]));
                                        lemma_lex_antisym(v, t);
                                    }
                                }
                            }
                        }
                        return Err(CommandError::InvalidVersion);
                    }
                    let result = vs[p - 1].clone();
                    proof {
                        assert(sv[p - 1] == result@);
                        assert(sv.contains(sv[p - 1]));
                        assert(cat.contains(result@));
                        assert(lex_leq(sv[p - 1], sv[p as int]));
                        assert(result@ != t);
                        assert(lex_lt(result@, t));
                        assert forall|v: Seq<char>|
                            cat.contains(v) && lex_lt(v, t) implies lex_leq(v, result@) by {
                            assert(sv.contains(v));
                            let idx = choose|idx: int| 0 <= idx < sv.len() && sv[idx] == v;
                            if idx >= p {
                                if idx > p {
                                    assert(lex_leq(sv[p as int], sv[idx]));
                                } else {
                                    lemma_lex_refl(t);
                                }
                                lemma_lex_antisym(v, t);
                            } else if idx == p - 1 {
                                lemma_lex_refl(v);
                            } else {
                                assert(lex_leq(sv[idx], sv[p - 1]));
                            }
                        }
                        assert(exists|v: Seq<char>| cat.contains(v) && lex_lt(v, t));
                    }
                    return Ok(result);
                },
            }
        }

        let mut k: usize = vs.len();
        while k > 0
            invariant
                semantic_version is Some,
                cc == *(semantic_version->0),
                !(cc.op == ConstraintOp::Less && cc.minor is Some && cc.patch is Some),
                k <= vs@.len(),
                lex_sorted(views(vs@)),
                views(vs@).to_multiset() == views(available_versions@).to_multiset(),
                forall|j: int|
                    k <= j < vs@.len() ==> !catalog_matches(cc, views(vs@)[j]),
            decreases k,
        {
            k = k - 1;
            let t = parse_version_parts(vs[k].as_str());
            let (ma, mi2, pa, has_pre) = match t {
                Some(t) => t,
                None => (0u64, 0u64, 0u64, false),
            };
            proof {
                assert(catalog_triple(views(vs@)[k as int]) == (ma, mi2, pa));
                assert(catalog_has_prerelease(views(vs@)[k as int]) == has_pre);
            }
            if !has_pre && comparator_matches(&cc, ma, mi2, pa) {
                let result = vs[k].clone();
                proof {
                    let sv = views(vs@);
                    lemma_same_multiset_same_members(sv, views(available_versions@));
                    assert(sv[k as int] == result@);
                    assert(sv.contains(sv[k as int]));
                    assert(catalog_matches(cc, result@));
                    assert forall|v: Seq<char>|
                        views(available_versions@).contains(v) && catalog_matches(cc, v)
                            implies lex_leq(v, result@) by {
                        assert(sv.contains(v));
                        let idx = choose|idx: int| 0 <= idx < sv.len() && sv[idx] == v;
                        if idx == k as int {
                            lemma_lex_refl(v);
                        } else if idx < k as int {
                            assert(lex_leq(sv[idx], sv[k as int]));
                        }
                    }
                    assert(views(available_versions@).contains(result@));
                    assert(exists|v: Seq<char>|
                        views(available_versions@).contains(v) && catalog_matches(cc, v));
                }
                return Ok(result);
            }
        }
        proof {
            let sv = views(vs@);
            lemma_same_multiset_same_members(sv, views(available_versions@));
            assert forall|v: Seq<char>|
                views(available_versions@).contains(v) implies !catalog_matches(cc, v) by {
                assert(sv.contains(v));
                let idx = choose|idx: int| 0 <= idx < sv.len() && sv[idx] == v;
                assert(!catalog_matches(cc, sv[idx]));
            }
        }
        Err(CommandError::InvalidVersion)
    }
}

} // verus!

