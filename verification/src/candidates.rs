//! The order in which release candidates are ranked, and the choice of the
//! newest among some of them.

use vstd::prelude::*;
use crate::versioning::{ParsedVersion, order_versions, semver_order, semver_order_strict, semver_parse};

verus! {

/// Lexicographic order on texts, character by character: `a` comes no later
/// than `b`. For UTF-8 strings this is the order of `String`'s `Ord`.
pub open spec fn text_le(a: Seq<char>, b: Seq<char>) -> bool
    decreases a.len(),
{
    if a.len() == 0 {
        true
    } else if b.len() == 0 {
        false
    } else if a[0] == b[0] {
        text_le(a.drop_first(), b.drop_first())
    } else {
        (a[0] as int) < (b[0] as int)
    }
}

/// Every text comes no later than itself.
pub proof fn lemma_text_le_reflexive(a: Seq<char>)
    ensures
        text_le(a, a),
    decreases a.len(),
{
    if a.len() > 0 {
        lemma_text_le_reflexive(a.drop_first());
    }
}

/// Of two texts, one comes no later than the other.
pub proof fn lemma_text_le_total(a: Seq<char>, b: Seq<char>)
    ensures
        text_le(a, b) || text_le(b, a),
    decreases a.len(),
{
    if a.len() > 0 && b.len() > 0 {
        if a[0] == b[0] {
            lemma_text_le_total(a.drop_first(), b.drop_first());
        } else {
            let x = a[0];
            let y = b[0];
            assert(x != y ==> (x as int) != (y as int));
        }
    }
}

/// Two texts that each come no later than the other are the same text.
pub proof fn lemma_text_le_antisymmetric(a: Seq<char>, b: Seq<char>)
    requires
        text_le(a, b),
        text_le(b, a),
    ensures
        a == b,
    decreases a.len(),
{
    if a.len() > 0 && b.len() > 0 {
        if a[0] == b[0] {
            lemma_text_le_antisymmetric(a.drop_first(), b.drop_first());
            assert(a == seq![a[0]] + a.drop_first());
            assert(b == seq![b[0]] + b.drop_first());
        }
    } else {
        assert(a.len() == 0 && b.len() == 0);
    }
}

/// "Comes no later than" is transitive.
pub proof fn lemma_text_le_transitive(a: Seq<char>, b: Seq<char>, c: Seq<char>)
    requires
        text_le(a, b),
        text_le(b, c),
    ensures
        text_le(a, c),
    decreases a.len(),
{
    if a.len() > 0 && b.len() > 0 && c.len() > 0 && a[0] == b[0] && b[0] == c[0] {
        lemma_text_le_transitive(a.drop_first(), b.drop_first(), c.drop_first());
    }
}

/// Whether `a` comes no later than `b` by character order.
pub fn text_no_later(a: &Vec<char>, b: &Vec<char>) -> (r: bool)
    ensures
        r == text_le(a@, b@),
{
    let mut i: usize = 0;
    assert(a@.skip(0) == a@);
    assert(b@.skip(0) == b@);
    while i < a.len() && i < b.len() && a[i] == b[i]
        invariant
            i <= a.len(),
            i <= b.len(),
            text_le(a@, b@) == text_le(a@.skip(i as int), b@.skip(i as int)),
        decreases a.len() - i,
    {
        assert(a@.skip(i as int).drop_first() == a@.skip(i + 1));
        assert(b@.skip(i as int).drop_first() == b@.skip(i + 1));
        i = i + 1;
    }
    if i == a.len() {
        true
    } else if i == b.len() {
        false
    } else {
        assert(a@.skip(i as int)[0] == a@[i as int]);
        assert(b@.skip(i as int)[0] == b@[i as int]);
        a[i] < b[i]
    }
}

/// The rank order of release candidates: a text that semver parses ranks
/// above every text it does not; parsed texts rank by semver's order, the
/// others by string order. `a` ranks no higher than `b`.
pub open spec fn ranks_no_higher(a: Seq<char>, b: Seq<char>) -> bool {
    match (semver_parse(a) is Some, semver_parse(b) is Some) {
        (true, true) => semver_order(a, b) <= 0,
        (false, true) => true,
        (true, false) => false,
        (false, false) => text_le(a, b),
    }
}

/// Two texts that each rank no higher than the other are the same text,
/// where semver ranks no two different texts it parses equal.
pub proof fn lemma_ranks_antisymmetric(a: Seq<char>, b: Seq<char>)
    requires
        semver_order_strict(),
        ranks_no_higher(a, b),
        ranks_no_higher(b, a),
    ensures
        a == b,
{
    if semver_parse(a) is None && semver_parse(b) is None {
        lemma_text_le_antisymmetric(a, b);
    } else {
        assert(semver_order(a, b) <= 0 && semver_order(b, a) <= 0);
    }
}

/// `p` holds the parse of `t` exactly where semver parses `t`.
pub open spec fn parsed_as(p: Option<ParsedVersion>, t: Seq<char>) -> bool {
    &&& (p is Some <==> semver_parse(t) is Some)
    &&& (p matches Some(q) ==> q@ == t)
}

/// Whether the candidate written `ta` ranks no higher than the one written
/// `tb`; also what the answer tells of the rank order around them.
pub(crate) fn rank_no_higher(
    pa: &Option<ParsedVersion>,
    ta: &Vec<char>,
    pb: &Option<ParsedVersion>,
    tb: &Vec<char>,
) -> (r: bool)
    requires
        parsed_as(*pa, ta@),
        parsed_as(*pb, tb@),
    ensures
        r == ranks_no_higher(ta@, tb@),
        !r ==> ranks_no_higher(tb@, ta@),
        r ==> forall|c: Seq<char>| ranks_no_higher(c, ta@) ==> ranks_no_higher(c, tb@),
        ranks_no_higher(tb@, tb@),
{
    match (pa, pb) {
        (Some(a), Some(b)) => {
            let o = order_versions(a, b);
            let s = order_versions(b, b);
            assert(s == 0);
            o <= 0
        },
        (None, Some(b)) => {
            let s = order_versions(b, b);
            assert(s == 0);
            true
        },
        (Some(_), None) => {
            proof {
                lemma_text_le_reflexive(tb@);
            }
            false
        },
        (None, None) => {
            let r = text_no_later(ta, tb);
            proof {
                lemma_text_le_reflexive(tb@);
                lemma_text_le_total(ta@, tb@);
                assert forall|c: Seq<char>| r && ranks_no_higher(c, ta@) implies ranks_no_higher(c, tb@) by {
                    if semver_parse(c) is None {
                        lemma_text_le_transitive(c, ta@, tb@);
                    }
                }
            }
            r
        },
    }
}

/// `j` is the last, in list order, of the members that rank highest.
pub open spec fn is_last_highest(texts: Seq<Seq<char>>, member: Seq<bool>, j: int) -> bool {
    &&& 0 <= j < texts.len()
    &&& j < member.len()
    &&& member[j]
    &&& forall|i: int| 0 <= i < texts.len() && i < member.len() && member[i] ==> ranks_no_higher(#[trigger] texts[i], texts[j])
    &&& forall|i: int| j < i < texts.len() && i < member.len() && member[i] ==> !ranks_no_higher(texts[j], #[trigger] texts[i])
}

/// At most one position is the last of the highest-ranking members.
pub proof fn lemma_last_highest_unique(texts: Seq<Seq<char>>, member: Seq<bool>, j1: int, j2: int)
    requires
        is_last_highest(texts, member, j1),
        is_last_highest(texts, member, j2),
    ensures
        j1 == j2,
{
    if j1 < j2 {
        assert(ranks_no_higher(texts[j1], texts[j2]));
    } else if j2 < j1 {
        assert(ranks_no_higher(texts[j2], texts[j1]));
    }
}

/// The views of a list of character lists.
pub open spec fn texts_view(ts: Seq<Vec<char>>) -> Seq<Seq<char>> {
    ts.map_values(|t: Vec<char>| t@)
}

/// The position of the last of the highest-ranking members, where any is a
/// member.
pub(crate) fn last_highest(
    parsed: &Vec<Option<ParsedVersion>>,
    texts: &Vec<Vec<char>>,
    member: &Vec<bool>,
) -> (r: Option<usize>)
    requires
        parsed.len() == texts.len(),
        member.len() == texts.len(),
        forall|i: int| 0 <= i < texts.len() ==> parsed_as(#[trigger] parsed@[i], texts@[i]@),
    ensures
        r is None <==> forall|i: int| 0 <= i < member.len() ==> !#[trigger] member@[i],
        r matches Some(j) ==> is_last_highest(texts_view(texts@), member@, j as int),
{
    let ghost ts = texts_view(texts@);
    let n = texts.len();
    let mut best: Option<usize> = None;
    for k in 0..n
        invariant
            n == texts.len(),
            parsed.len() == n,
            member.len() == n,
            ts == texts_view(texts@),
            forall|i: int| 0 <= i < n ==> parsed_as(#[trigger] parsed@[i], texts@[i]@),
            best is None <==> forall|i: int| 0 <= i < k ==> !#[trigger] member@[i],
            best matches Some(b) ==> {
                &&& b < k
                &&& member@[b as int]
                &&& forall|i: int| 0 <= i < k && member@[i] ==> ranks_no_higher(#[trigger] ts[i], ts[b as int])
                &&& forall|i: int| b < i < k && member@[i] ==> !ranks_no_higher(ts[b as int], #[trigger] ts[i])
            },
    {
        assert(ts[k as int] == texts@[k as int]@);
        if member[k] {
            match best {
                None => {
                    let _ = rank_no_higher(&parsed[k], &texts[k], &parsed[k], &texts[k]);
                    best = Some(k);
                },
                Some(b) => {
                    assert(ts[b as int] == texts@[b as int]@);
                    let le = rank_no_higher(&parsed[b], &texts[b], &parsed[k], &texts[k]);
                    if le {
                        best = Some(k);
                    }
                },
            }
        }
    }
    best
}

} // verus!
