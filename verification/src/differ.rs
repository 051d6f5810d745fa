use vstd::prelude::*;

use crate::criteria::CriteriaSet;
use crate::evaluator::{count_marginal, count_passed, EligibilityResult};
use crate::metric::{constraint_eqv, Constraint, Criterion};
use crate::program::ProgramId;
use crate::text::{fp_str, fp_str4, fp_to_string, fp_to_string4, lex_lt, str_eq, str_lt};

verus! {

/// The structural kinds of rule change between two fetches.
#[derive(Debug, Clone, Copy, PartialEq, Eq, Structural)]
pub enum ChangeType {
    Added,
    Removed,
    ThresholdChanged,
    WeightChanged,
    DescriptionChanged,
}

/// How a rule change bears on one participant, as a two-snapshot
/// eligibility transition.
#[derive(Debug, Clone, Copy, PartialEq, Eq, Structural)]
pub enum DriftImpact {
    NowEligible,
    StillEligible,
    AtRisk,
    NowIneligible,
    NotApplicable,
}

/// One recorded rule change, with rendered old and new values.
#[derive(Debug)]
pub struct CriterionChange {
    pub criterion_name: String,
    pub change_type: ChangeType,
    pub old_value: Option<String>,
    pub new_value: Option<String>,
}

/// A drift report: the changes between two fetches of one program's
/// rules and their bearing on the participant.
#[derive(Debug)]
pub struct CriteriaDrift {
    pub program: ProgramId,
    pub detected_at: i64,
    pub changes: Vec<CriterionChange>,
    pub impact_on_you: DriftImpact,
}

/// The mathematical content of one recorded change.
pub struct ChangeView {
    pub name: Seq<char>,
    pub kind: ChangeType,
    pub old_value: Option<Seq<char>>,
    pub new_value: Option<Seq<char>>,
}

pub open spec fn change_view(c: CriterionChange) -> ChangeView {
    ChangeView {
        name: c.criterion_name@,
        kind: c.change_type,
        old_value: match c.old_value {
            Some(s) => Some(s@),
            None => None,
        },
        new_value: match c.new_value {
            Some(s) => Some(s@),
            None => None,
        },
    }
}

pub open spec fn changes_view(s: Seq<CriterionChange>) -> Seq<ChangeView> {
    s.map_values(|c: CriterionChange| change_view(c))
}

/// The rendered form of a boolean.
pub open spec fn bool_text(b: bool) -> Seq<char> {
    if b {
        seq!['t', 'r', 'u', 'e']
    } else {
        seq!['f', 'a', 'l', 's', 'e']
    }
}

/// A text in quotation marks.
pub open spec fn quoted(s: Seq<char>) -> Seq<char> {
    seq!['"'] + s + seq!['"']
}

/// Quoted texts joined by commas.
pub open spec fn quoted_join(items: Seq<String>) -> Seq<char>
    decreases items.len(),
{
    if items.len() == 0 {
        Seq::empty()
    } else if items.len() == 1 {
        quoted(items[0]@)
    } else {
        quoted_join(items.drop_last()) + seq![',', ' '] + quoted(items.last()@)
    }
}

/// The rendered form of a constraint, as drift reports show it.
pub open spec fn constraint_text(c: Constraint) -> Seq<char> {
    match c {
        Constraint::Min(v) => seq!['>', '=', ' '] + fp_str(v as int),
        Constraint::Max(v) => seq!['<', '=', ' '] + fp_str(v as int),
        Constraint::Range { min, max } => seq!['['] + fp_str(min as int) + seq![',', ' '] + fp_str(
            max as int,
        ) + seq![']'],
        Constraint::Equals(s) => seq!['=', '=', ' '] + s@,
        Constraint::OneOf(items) => seq!['o', 'n', 'e', ' ', 'o', 'f', ' ', '['] + quoted_join(
            items@,
        ) + seq![']'],
        Constraint::Boolean(b) => seq!['=', '=', ' '] + bool_text(b),
        Constraint::Custom(s) => s@,
    }
}

/// The governing criterion for a name: the last one in the list that
/// carries it, as a name-keyed map built front to back would keep it.
pub open spec fn lookup_last(s: Seq<Criterion>, name: Seq<char>) -> Option<Criterion>
    decreases s.len(),
{
    if s.len() == 0 {
        None
    } else if s.last().name@ == name {
        Some(s.last())
    } else {
        lookup_last(s.drop_last(), name)
    }
}

/// Whether any criterion of a list carries a name.
pub open spec fn has_name(s: Seq<Criterion>, name: Seq<char>) -> bool {
    lookup_last(s, name) is Some
}

/// The rendered form of an optional weight (four fraction digits).
pub open spec fn weight_text(w: Option<i64>) -> Option<Seq<char>> {
    match w {
        Some(v) => Some(fp_str4(v as int)),
        None => None,
    }
}

/// The changes reported for one name present in both fetches: a
/// threshold, weight, and description check, independently of each other.
pub open spec fn pair_changes(o: Criterion, n: Criterion) -> Seq<ChangeView> {
    (if !constraint_eqv(o.constraint, n.constraint) {
        seq![
            ChangeView {
                name: o.name@,
                kind: ChangeType::ThresholdChanged,
                old_value: Some(constraint_text(o.constraint)),
                new_value: Some(constraint_text(n.constraint)),
            },
        ]
    } else {
        Seq::empty()
    }) + (if o.weight != n.weight {
        seq![
            ChangeView {
                name: o.name@,
                kind: ChangeType::WeightChanged,
                old_value: weight_text(o.weight),
                new_value: weight_text(n.weight),
            },
        ]
    } else {
        Seq::empty()
    }) + (if o.description@ != n.description@ {
        seq![
            ChangeView {
                name: o.name@,
                kind: ChangeType::DescriptionChanged,
                old_value: Some(o.description@),
                new_value: Some(n.description@),
            },
        ]
    } else {
        Seq::empty()
    })
}

/// What one name contributes to a diff: an addition when only the new
/// fetch carries it, a removal when only the old one does, and the three
/// independent checks when both do — each side represented by its last
/// (governing) criterion with that name.
pub open spec fn entry_for(old: Seq<Criterion>, new: Seq<Criterion>, name: Seq<char>) -> Seq<
    ChangeView,
> {
    match (lookup_last(old, name), lookup_last(new, name)) {
        (None, None) => Seq::empty(),
        (None, Some(n)) => seq![
            ChangeView {
                name: n.name@,
                kind: ChangeType::Added,
                old_value: None,
                new_value: Some(constraint_text(n.constraint)),
            },
        ],
        (Some(o), None) => seq![
            ChangeView {
                name: o.name@,
                kind: ChangeType::Removed,
                old_value: Some(constraint_text(o.constraint)),
                new_value: None,
            },
        ],
        (Some(o), Some(n)) => pair_changes(o, n),
    }
}

/// The contributions of the first `k` scanned names, in scan order.
pub open spec fn diff_upto(
    old: Seq<Criterion>,
    new: Seq<Criterion>,
    ns: Seq<Seq<char>>,
    k: int,
) -> Seq<ChangeView>
    decreases k,
{
    if k <= 0 {
        Seq::empty()
    } else {
        diff_upto(old, new, ns, k - 1) + entry_for(old, new, ns[k - 1])
    }
}

/// The texts a name list holds.
pub open spec fn name_views(s: Seq<String>) -> Seq<Seq<char>> {
    s.map_values(|x: String| x@)
}

/// Whether a name list is strictly ascending in lexicographic order
/// (so each name appears once).
pub open spec fn names_sorted(ns: Seq<Seq<char>>) -> bool {
    forall|i: int, j: int| 0 <= i < j < ns.len() ==> lex_lt(#[trigger] ns[i], #[trigger] ns[j])
}

/// Everything `diff_criteria` reports: one contribution per criterion
/// name of either fetch, the names scanned once each in ascending
/// lexicographic order. The scan list is determined by that order and
/// by holding exactly the names of the two fetches.
pub open spec fn diff_ok(r: Seq<CriterionChange>, old: Seq<Criterion>, new: Seq<Criterion>) -> bool {
    exists|ns: Seq<Seq<char>>|
        {
            &&& #[trigger] names_sorted(ns)
            &&& forall|n: Seq<char>| #[trigger] ns.contains(n) <==> has_name(old, n) || has_name(new, n)
            &&& changes_view(r) == diff_upto(old, new, ns, ns.len() as int)
        }
}

/// Comparing a rule list with itself contributes nothing for any name,
/// so the report of any scan is empty.
pub proof fn lemma_diff_identity(s: Seq<Criterion>, ns: Seq<Seq<char>>)
    ensures
        diff_upto(s, s, ns, ns.len() as int) == Seq::<ChangeView>::empty(),
    decreases ns.len(),
{
    lemma_diff_upto_identity(s, ns, ns.len() as int);
}

/// A report over a rule list compared with itself is empty.
pub proof fn lemma_diff_ok_identity(r: Seq<CriterionChange>, s: Seq<Criterion>)
    requires
        diff_ok(r, s, s),
    ensures
        changes_view(r) == Seq::<ChangeView>::empty(),
{
    let ns = choose|ns: Seq<Seq<char>>|
        {
            &&& #[trigger] names_sorted(ns)
            &&& forall|n: Seq<char>| #[trigger] ns.contains(n) <==> has_name(s, n) || has_name(s, n)
            &&& changes_view(r) == diff_upto(s, s, ns, ns.len() as int)
        };
    lemma_diff_identity(s, ns);
}

/// A strictly ascending name list is determined by what it holds, so
/// the scan order of `diff_ok` pins one list, and with it one report.
pub proof fn lemma_sorted_names_unique(ns1: Seq<Seq<char>>, ns2: Seq<Seq<char>>)
    requires
        names_sorted(ns1),
        names_sorted(ns2),
        forall|n: Seq<char>| #[trigger] ns1.contains(n) <==> ns2.contains(n),
    ensures
        ns1 == ns2,
    decreases ns1.len(),
{
    if ns1.len() == 0 {
        if ns2.len() > 0 {
            assert(ns2.contains(ns2[0]));
            assert(ns1.contains(ns2[0]));
        }
        assert(ns1 =~= ns2);
    } else if ns2.len() == 0 {
        assert(ns1.contains(ns1[0]));
        assert(ns2.contains(ns1[0]));
    } else {
        assert(ns1.contains(ns1[0]));
        assert(ns2.contains(ns2[0]));
        assert(ns2.contains(ns1[0]));
        assert(ns1.contains(ns2[0]));
        let j = choose|j: int| 0 <= j < ns2.len() && ns2[j] == ns1[0];
        let k = choose|k: int| 0 <= k < ns1.len() && ns1[k] == ns2[0];
        assert(0 <= j < ns2.len() && ns2[j] == ns1[0]);
        assert(0 <= k < ns1.len() && ns1[k] == ns2[0]);
        if j > 0 && k > 0 {
            crate::text::lemma_lex_trans(ns2[0], ns2[j], ns1[k]);
            crate::text::lemma_lex_irrefl(ns2[0]);
        }
        if j > 0 && k == 0 {
            crate::text::lemma_lex_irrefl(ns2[0]);
        }
        if j == 0 && k > 0 {
            crate::text::lemma_lex_irrefl(ns1[0]);
        }
        assert(ns1[0] == ns2[0]);
        assert(names_sorted(ns1.skip(1))) by {
            assert forall|i2: int, j2: int|
                0 <= i2 < j2 < ns1.skip(1).len() implies lex_lt(
                #[trigger] ns1.skip(1)[i2],
                #[trigger] ns1.skip(1)[j2],
            ) by {
                assert(ns1.skip(1)[i2] == ns1[i2 + 1]);
                assert(ns1.skip(1)[j2] == ns1[j2 + 1]);
            }
        }
        assert(names_sorted(ns2.skip(1))) by {
            assert forall|i2: int, j2: int|
                0 <= i2 < j2 < ns2.skip(1).len() implies lex_lt(
                #[trigger] ns2.skip(1)[i2],
                #[trigger] ns2.skip(1)[j2],
            ) by {
                assert(ns2.skip(1)[i2] == ns2[i2 + 1]);
                assert(ns2.skip(1)[j2] == ns2[j2 + 1]);
            }
        }
        assert forall|n: Seq<char>| #[trigger]
            ns1.skip(1).contains(n) <==> ns2.skip(1).contains(n) by {
            lemma_tail_contains(ns1, n);
            lemma_tail_contains(ns2, n);
        }
        lemma_sorted_names_unique(ns1.skip(1), ns2.skip(1));
        assert(ns1 =~= ns2) by {
            assert forall|i2: int| 0 <= i2 < ns1.len() implies ns1[i2] == ns2[i2] by {
                if i2 > 0 {
                    assert(ns1.skip(1)[i2 - 1] == ns1[i2]);
                    assert(ns2.skip(1)[i2 - 1] == ns2[i2]);
                }
            }
        }
    }
}

/// A strictly ascending list holds a name in its tail exactly when the
/// name is held and is not the head.
proof fn lemma_tail_contains(ns: Seq<Seq<char>>, n: Seq<char>)
    requires
        names_sorted(ns),
        ns.len() > 0,
    ensures
        ns.skip(1).contains(n) <==> (ns.contains(n) && n != ns[0]),
{
    if ns.skip(1).contains(n) {
        let i = choose|i: int| 0 <= i < ns.skip(1).len() && ns.skip(1)[i] == n;
        assert(ns[i + 1] == n);
        assert(lex_lt(ns[0], ns[i + 1]));
        crate::text::lemma_lex_irrefl(ns[0]);
        assert(ns.contains(n));
    }
    if ns.contains(n) && n != ns[0] {
        let i = choose|i: int| 0 <= i < ns.len() && ns[i] == n;
        assert(i > 0);
        assert(ns.skip(1)[i - 1] == n);
        assert(ns.skip(1).contains(n));
    }
}

proof fn lemma_diff_upto_identity(s: Seq<Criterion>, ns: Seq<Seq<char>>, k: int)
    ensures
        k <= ns.len() ==> diff_upto(s, s, ns, k) == Seq::<ChangeView>::empty(),
    decreases k,
{
    if 0 < k <= ns.len() {
        lemma_diff_upto_identity(s, ns, k - 1);
        match lookup_last(s, ns[k - 1]) {
            Some(c) => {
                assert(pair_changes(c, c) =~= Seq::<ChangeView>::empty());
            },
            None => {},
        }
        assert(diff_upto(s, s, ns, k) =~= Seq::<ChangeView>::empty());
    }
}

/// The impact table is total: every pair of verdicts, and the
/// missing-snapshot case, maps to exactly one impact, as the two-snapshot
/// transition table prescribes.
pub proof fn lemma_classify_total(
    before: Option<EligibilityResult>,
    after: Option<EligibilityResult>,
)
    ensures
        (before is None || after is None) ==> spec_classify(before, after)
            == DriftImpact::NotApplicable,
        match (before, after) {
            (Some(b), Some(a)) => {
                &&& (!b.eligible && a.eligible) ==> spec_classify(before, after)
                    == DriftImpact::NowEligible
                &&& (b.eligible && !a.eligible) ==> spec_classify(before, after)
                    == DriftImpact::NowIneligible
                &&& (!b.eligible && !a.eligible) ==> spec_classify(before, after)
                    == DriftImpact::NotApplicable
                &&& (b.eligible && a.eligible) ==> spec_classify(before, after) == (if a
                    .criterion_results@.len() - count_passed(a.criterion_results@) > 0
                    || count_marginal(a.criterion_results@, 300) > 0 {
                    DriftImpact::AtRisk
                } else {
                    DriftImpact::StillEligible
                })
            },
            _ => true,
        },
{
}

/// The governing criterion for a name: the last one carrying it.
fn find_last_by_name<'a>(s: &'a Vec<Criterion>, name: &str) -> (r: Option<&'a Criterion>)
    ensures
        match r {
            Some(c) => lookup_last(s@, name@) == Some(*c),
            None => lookup_last(s@, name@) is None,
        },
{
    let mut i: usize = s.len();
    proof {
        assert(s@.take(s@.len() as int) =~= s@);
    }
    while i > 0
        invariant
            0 <= i <= s@.len(),
            lookup_last(s@, name@) == lookup_last(s@.take(i as int), name@),
        decreases i,
    {
        i = i - 1;
        proof {
            assert(s@.take(i as int + 1).last() == s@[i as int]);
            assert(s@.take(i as int + 1).drop_last() =~= s@.take(i as int));
        }
        if str_eq(s[i].name.as_str(), name) {
            return Some(&s[i]);
        }
    }
    None
}

/// Inserts a name into a strictly ascending list, keeping it ascending;
/// a name already present is left alone.
fn insert_sorted(names: &mut Vec<String>, name: &String)
    requires
        names_sorted(name_views(old(names)@)),
    ensures
        names_sorted(name_views(final(names)@)),
        forall|n: Seq<char>|
            #[trigger] name_views(final(names)@).contains(n) <==> (name_views(old(names)@).contains(n) || n == name@),
{
    let ghost pre = name_views(names@);
    let mut k: usize = 0;
    while k < names.len() && str_lt(names[k].as_str(), name.as_str())
        invariant
            0 <= k <= names@.len(),
            names@ == old(names)@,
            forall|j: int| 0 <= j < k ==> lex_lt(#[trigger] name_views(names@)[j], name@),
        decreases names@.len() - k,
    {
        k = k + 1;
    }
    if k < names.len() && str_eq(names[k].as_str(), name.as_str()) {
        proof {
            assert(pre[k as int] == name@);
            assert forall|n: Seq<char>|
                #[trigger] pre.contains(n) <==> (pre.contains(n) || n == name@) by {
                if n == name@ {
                    assert(pre[k as int] == n);
                }
            }
        }
        return ;
    }
    proof {
        if k < names@.len() {
            crate::text::lemma_lex_total(pre[k as int], name@);
            assert(lex_lt(name@, pre[k as int]));
        }
    }
    names.insert(k, name.clone());
    proof {
        let post = name_views(names@);
        assert(post.len() == pre.len() + 1);
        assert forall|i: int| 0 <= i < post.len() implies post[i] == (if i < k {
            pre[i]
        } else if i == k {
            name@
        } else {
            pre[i - 1]
        }) by {
            assert(names@[i] == (if i < k {
                old(names)@[i]
            } else if i == k {
                names@[k as int]
            } else {
                old(names)@[i - 1]
            }));
        }
        assert forall|i: int, j: int| 0 <= i < j < post.len() implies lex_lt(
            #[trigger] post[i],
            #[trigger] post[j],
        ) by {
            if i == k {
                if j > k + 1 {
                    crate::text::lemma_lex_trans(name@, pre[k as int], pre[j - 1]);
                } else if j == k + 1 && k < pre.len() {
                    assert(lex_lt(name@, pre[k as int]));
                }
            }
        }
        assert forall|n: Seq<char>| #[trigger]
            post.contains(n) implies (pre.contains(n) || n == name@) by {
            let i = choose|i: int| 0 <= i < post.len() && post[i] == n;
            if i < k {
                assert(pre[i] == n);
            } else if i > k {
                assert(pre[i - 1] == n);
            }
        }
        assert forall|n: Seq<char>| (pre.contains(n) || n == name@) implies #[trigger] post.contains(
            n,
        ) by {
            if n == name@ {
                assert(post[k as int] == n);
            } else {
                let i = choose|i: int| 0 <= i < pre.len() && pre[i] == n;
                if i < k {
                    assert(post[i] == n);
                } else {
                    assert(post[i + 1] == n);
                }
            }
        }
    }
}

/// The criterion names of both fetches, each once, ascending.
fn sorted_names(old: &Vec<Criterion>, new: &Vec<Criterion>) -> (r: Vec<String>)
    ensures
        names_sorted(name_views(r@)),
        forall|n: Seq<char>|
            #[trigger] name_views(r@).contains(n) <==> (has_name(old@, n)
                || has_name(new@, n)),
{
    let mut names: Vec<String> = Vec::new();
    let mut i: usize = 0;
    while i < old.len()
        invariant
            0 <= i <= old@.len(),
            names_sorted(name_views(names@)),
            forall|n: Seq<char>|
                #[trigger] name_views(names@).contains(n) <==> has_name(
                    old@.take(i as int),
                    n,
                ),
        decreases old@.len() - i,
    {
        proof {
            assert(old@.take(i as int + 1).last() == old@[i as int]);
            assert(old@.take(i as int + 1).drop_last() =~= old@.take(i as int));
        }
        insert_sorted(&mut names, &old[i].name);
        i = i + 1;
    }
    proof {
        assert(old@.take(old@.len() as int) =~= old@);
    }
    let mut j: usize = 0;
    while j < new.len()
        invariant
            0 <= j <= new@.len(),
            names_sorted(name_views(names@)),
            forall|n: Seq<char>|
                #[trigger] name_views(names@).contains(n) <==> (has_name(old@, n)
                    || has_name(new@.take(j as int), n)),
        decreases new@.len() - j,
    {
        proof {
            assert(new@.take(j as int + 1).last() == new@[j as int]);
            assert(new@.take(j as int + 1).drop_last() =~= new@.take(j as int));
        }
        insert_sorted(&mut names, &new[j].name);
        j = j + 1;
    }
    proof {
        assert(new@.take(new@.len() as int) =~= new@);
    }
    names
}

/// Whether two optional weights agree.
fn weight_equal(a: &Option<i64>, b: &Option<i64>) -> (r: bool)
    ensures
        r == (*a == *b),
{
    match (a, b) {
        (Some(x), Some(y)) => *x == *y,
        (None, None) => true,
        _ => false,
    }
}

/// Compares two fetches of one program's rules, keyed by criterion name
/// and scanned in ascending name order: names only in the new fetch are
/// additions, names only in the old are removals, and names in both are
/// checked independently for threshold, weight, and description changes.
/// A repeated name is governed by its last criterion, as the name-keyed
/// collection the rules come from would keep it.
pub fn diff_criteria(old_set: &CriteriaSet, new_set: &CriteriaSet) -> (r: Vec<CriterionChange>)
    ensures
        diff_ok(r@, old_set.criteria@, new_set.criteria@),
{
    let old = &old_set.criteria;
    let new = &new_set.criteria;
    let names = sorted_names(old, new);
    let ghost nsv = name_views(names@);
    let mut out: Vec<CriterionChange> = Vec::new();
    let mut k: usize = 0;
    while k < names.len()
        invariant
            0 <= k <= names@.len(),
            nsv == name_views(names@),
            old == old_set.criteria,
            new == new_set.criteria,
            changes_view(out@) == diff_upto(old@, new@, nsv, k as int),
        decreases names@.len() - k,
    {
        let name = &names[k];
        proof {
            assert(nsv[k as int] == name@);
        }
        let ghost pre = out@;
        match (find_last_by_name(old, name.as_str()), find_last_by_name(new, name.as_str())) {
            (None, Some(nc)) => {
                out.push(
                    CriterionChange {
                        criterion_name: nc.name.clone(),
                        change_type: ChangeType::Added,
                        old_value: None,
                        new_value: Some(format_constraint(&nc.constraint)),
                    },
                );
            },
            (Some(oc), None) => {
                out.push(
                    CriterionChange {
                        criterion_name: oc.name.clone(),
                        change_type: ChangeType::Removed,
                        old_value: Some(format_constraint(&oc.constraint)),
                        new_value: None,
                    },
                );
            },
            (Some(oc), Some(nc)) => {
                if !oc.constraint.eqv(&nc.constraint) {
                    out.push(
                        CriterionChange {
                            criterion_name: oc.name.clone(),
                            change_type: ChangeType::ThresholdChanged,
                            old_value: Some(format_constraint(&oc.constraint)),
                            new_value: Some(format_constraint(&nc.constraint)),
                        },
                    );
                }
                if !weight_equal(&oc.weight, &nc.weight) {
                    let old_value = match oc.weight {
                        Some(w) => Some(fp_to_string4(w)),
                        None => None,
                    };
                    let new_value = match nc.weight {
                        Some(w) => Some(fp_to_string4(w)),
                        None => None,
                    };
                    out.push(
                        CriterionChange {
                            criterion_name: oc.name.clone(),
                            change_type: ChangeType::WeightChanged,
                            old_value,
                            new_value,
                        },
                    );
                }
                if !str_eq(oc.description.as_str(), nc.description.as_str()) {
                    out.push(
                        CriterionChange {
                            criterion_name: oc.name.clone(),
                            change_type: ChangeType::DescriptionChanged,
                            old_value: Some(oc.description.clone()),
                            new_value: Some(nc.description.clone()),
                        },
                    );
                }
            },
            (None, None) => {},
        }
        proof {
            assert(changes_view(out@) =~= changes_view(pre) + entry_for(
                old@,
                new@,
                nsv[k as int],
            ));
            assert(changes_view(out@) =~= diff_upto(old@, new@, nsv, k as int + 1));
        }
        k = k + 1;
    }
    proof {
        assert(nsv.len() == names@.len());
        assert(names_sorted(nsv));
        assert(changes_view(out@) == diff_upto(old_set.criteria@, new_set.criteria@, nsv, nsv.len() as int));
        assert(diff_ok(out@, old_set.criteria@, new_set.criteria@));
    }
    out
}

/// The two-snapshot impact table: a missing snapshot or a participant
/// ineligible both times has no applicable impact; a flipped verdict is
/// reported as such; an unchanged eligible verdict is at risk when any
/// criterion fails or any gap sits within the fixed relative margin.
pub open spec fn spec_classify(
    before: Option<EligibilityResult>,
    after: Option<EligibilityResult>,
) -> DriftImpact {
    match (before, after) {
        (Some(b), Some(a)) => {
            if !b.eligible && a.eligible {
                DriftImpact::NowEligible
            } else if b.eligible && !a.eligible {
                DriftImpact::NowIneligible
            } else if !b.eligible && !a.eligible {
                DriftImpact::NotApplicable
            } else if a.criterion_results@.len() - count_passed(a.criterion_results@) > 0
                || count_marginal(a.criterion_results@, 300) > 0 {
                DriftImpact::AtRisk
            } else {
                DriftImpact::StillEligible
            }
        },
        _ => DriftImpact::NotApplicable,
    }
}

/// Classifies the eligibility transition between two snapshots.
pub fn classify_drift_impact(
    before: Option<&EligibilityResult>,
    after: Option<&EligibilityResult>,
) -> (r: DriftImpact)
    ensures
        r == spec_classify(
            match before {
                Some(b) => Some(*b),
                None => None,
            },
            match after {
                Some(a) => Some(*a),
                None => None,
            },
        ),
{
    match (before, after) {
        (Some(b), Some(a)) => {
            match (b.eligible, a.eligible) {
                (false, true) => DriftImpact::NowEligible,
                (true, false) => DriftImpact::NowIneligible,
                (false, false) => DriftImpact::NotApplicable,
                (true, true) => {
                    if a.failed_count() > 0 || a.marginal_count(300) > 0 {
                        DriftImpact::AtRisk
                    } else {
                        DriftImpact::StillEligible
                    }
                },
            }
        },
        _ => DriftImpact::NotApplicable,
    }
}

/// Builds a drift report between two fetches: none when the content
/// hashes agree (no structural change); otherwise the diff combined with
/// the impact classification, stamped with the detection time.
pub fn build_drift_report(
    old_set: &CriteriaSet,
    new_set: &CriteriaSet,
    before: Option<&EligibilityResult>,
    after: Option<&EligibilityResult>,
) -> (r: Option<CriteriaDrift>)
    ensures
        r is None <==> old_set.raw_hash@ == new_set.raw_hash@,
        match r {
            Some(d) => {
                &&& d.program == new_set.program
                &&& diff_ok(d.changes@, old_set.criteria@, new_set.criteria@)
                &&& d.impact_on_you == spec_classify(
                    match before {
                        Some(b) => Some(*b),
                        None => None,
                    },
                    match after {
                        Some(a) => Some(*a),
                        None => None,
                    },
                )
            },
            None => true,
        },
{
    if str_eq(old_set.raw_hash.as_str(), new_set.raw_hash.as_str()) {
        return None;
    }
    let changes = diff_criteria(old_set, new_set);
    let impact_on_you = classify_drift_impact(before, after);
    Some(
        CriteriaDrift {
            program: new_set.program,
            detected_at: crate::clock::now_unix(),
            changes,
            impact_on_you,
        },
    )
}

/// Renders a constraint for display in a drift report.
pub fn format_constraint(c: &Constraint) -> (r: String)
    ensures
        r@ == constraint_text(*c),
{
    match c {
        Constraint::Min(v) => {
            let mut s = String::from_str(">= ");
            s.append(fp_to_string(*v).as_str());
            proof {
                reveal_strlit(">= ");
                assert(s@ =~= constraint_text(*c));
            }
            s
        },
        Constraint::Max(v) => {
            let mut s = String::from_str("<= ");
            s.append(fp_to_string(*v).as_str());
            proof {
                reveal_strlit("<= ");
                assert(s@ =~= constraint_text(*c));
            }
            s
        },
        Constraint::Range { min, max } => {
            let mut s = String::from_str("[");
            s.append(fp_to_string(*min).as_str());
            s.append(", ");
            s.append(fp_to_string(*max).as_str());
            s.append("]");
            proof {
                reveal_strlit("[");
                reveal_strlit(", ");
                reveal_strlit("]");
                assert(s@ =~= constraint_text(*c));
            }
            s
        },
        Constraint::Equals(v) => {
            let mut s = String::from_str("== ");
            s.append(v.as_str());
            proof {
                reveal_strlit("== ");
                assert(s@ =~= constraint_text(*c));
            }
            s
        },
        Constraint::OneOf(values) => {
            let mut s = String::from_str("one of [");
            proof {
                reveal_strlit("one of [");
                reveal_strlit("\"");
                reveal_strlit(", ");
                reveal_strlit("]");
                assert(values@.take(0) =~= Seq::<String>::empty());
            }
            let n = values.len();
            let mut i: usize = 0;
            while i < n
                invariant
                    0 <= i <= n,
                    n == values@.len(),
                    "\""@ =~= seq!['"'],
                    ", "@ =~= seq![',', ' '],
                    s@ == "one of ["@ + quoted_join(values@.take(i as int)),
                decreases n - i,
            {
                if i > 0 {
                    s.append(", ");
                }
                s.append("\"");
                s.append(values[i].as_str());
                s.append("\"");
                proof {
                    assert(values@.take(i as int + 1).drop_last() =~= values@.take(i as int));
                    assert(values@.take(i as int + 1).last() == values@[i as int]);
                    assert(s@ =~= "one of ["@ + quoted_join(values@.take(i as int + 1)));
                }
                i = i + 1;
            }
            s.append("]");
            proof {
                assert(values@.take(n as int) =~= values@);
                assert(s@ =~= constraint_text(*c));
            }
            s
        },
        Constraint::Boolean(v) => {
            let mut s = String::from_str("== ");
            if *v {
                s.append("true");
            } else {
                s.append("false");
            }
            proof {
                reveal_strlit("== ");
                reveal_strlit("true");
                reveal_strlit("false");
                assert(s@ =~= constraint_text(*c));
            }
            s
        },
        Constraint::Custom(v) => {
            let s = v.clone();
            proof {
                assert(s@ =~= constraint_text(*c));
            }
            s
        },
    }
}

} // verus!
