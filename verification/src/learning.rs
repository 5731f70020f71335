//! Learning from corrections: which dictionary a batch of observed corrections
//! leads to, what changes by it, and when the batch is refused.

use crate::dictionary::{
    a_rule_is_read_from_its_line, breaks, clean, format_rule, has_arrow, has_break, line_rule,
    rule_line, rule_view, rules_view, side_fault, validate_rule_sides, DictionaryError, Limits,
    Rule, RuleView, RulesDocument,
};
use crate::seqs::{filter_ends, filter_step, first_where};
use crate::text::{
    ascii_lowercase, chars_of, contains, decimal, decimal_text, occurs, occurs_at, same, texts,
    to_ascii_lowercase, trim, trimmed,
};
use vstd::prelude::*;

verus! {

/// How often a batch is tried while the file keeps changing.
pub const LEARN_ATTEMPTS: u8 = 4;

/// One rule that learning adds or changes.
#[derive(Debug, PartialEq, Eq)]
pub struct LearnedRuleChange {
    pub from: String,
    pub to: String,
    /// The rule that it replaces.
    pub previous: Option<Rule>,
}

/// What a change says.
pub struct ChangeView {
    pub rule: RuleView,
    pub previous: Option<RuleView>,
}

/// What an optional rule says.
pub open spec fn optional_rule(r: Option<Rule>) -> Option<RuleView> {
    match r {
        Some(r) => Some(rule_view(r)),
        None => None,
    }
}

impl View for LearnedRuleChange {
    type V = ChangeView;

    open spec fn view(&self) -> ChangeView {
        ChangeView { rule: (self.from@, self.to@), previous: optional_rule(self.previous) }
    }
}

/// What a list of changes says.
pub open spec fn changes_view(cs: Seq<LearnedRuleChange>) -> Seq<ChangeView> {
    cs.map_values(|c: LearnedRuleChange| c@)
}

/// Why a batch of corrections is refused.
#[derive(Debug, PartialEq, Eq)]
pub enum LearnError {
    Nothing,
    Rule(DictionaryError),
    Invalid,
    /// With the phrase that is corrected in two ways.
    Conflicting(String),
    TooMany { max: usize },
    KeptChanging,
}

impl LearnError {
    /// The words for the error.
    pub open spec fn words(self) -> Seq<char> {
        match self {
            LearnError::Nothing => "no corrections were available to learn"@,
            LearnError::Rule(e) => e.words(),
            LearnError::Invalid => "Invalid automatic correction; nothing was learned."@,
            LearnError::Conflicting(from) =>
                "the same heard phrase maps to conflicting corrections: "@ + from@,
            LearnError::TooMany { max } => "the dictionary already has the maximum of "@ + decimal(
                max as nat,
            ) + " rules"@,
            LearnError::KeptChanging =>
                "the dictionary kept changing while VocalCode tried to add the correction"@,
        }
    }

    /// The words for the error.
    pub fn message(&self) -> (r: String)
        ensures
            r@ == self.words(),
    {
        match self {
            LearnError::Nothing => "no corrections were available to learn".to_owned(),
            LearnError::Rule(e) => e.message(),
            LearnError::Invalid => "Invalid automatic correction; nothing was learned.".to_owned(),
            LearnError::Conflicting(from) =>
                "the same heard phrase maps to conflicting corrections: ".to_owned().concat(from),
            LearnError::TooMany { max } => "the dictionary already has the maximum of ".to_owned(
            ).concat(&decimal_text(*max as u128)).concat(" rules"),
            LearnError::KeptChanging =>
                "the dictionary kept changing while VocalCode tried to add the correction".to_owned(),
        }
    }
}

/// The two phrases are heard alike: the same but for ASCII case.
pub open spec fn alike(a: Seq<char>, b: Seq<char>) -> bool {
    ascii_lowercase(a) == ascii_lowercase(b)
}

/// The pair cannot stand in a dictionary line.
pub open spec fn malformed(p: RuleView) -> bool {
    ||| trimmed(p.0).len() == 0
    ||| trimmed(p.1).len() == 0
    ||| p.0.len() > 0 && p.0[0] == '#'
    ||| occurs(p.0, "=>"@)
    ||| breaks(p.0)
    ||| breaks(p.1)
}

/// The pair is too long or malformed.
pub open spec fn unusable(p: RuleView, limits: Limits) -> bool {
    side_fault(p, limits) is Some || malformed(p)
}

/// An earlier pair corrects the same phrase in another way.
pub open spec fn contradicted(pairs: Seq<RuleView>, i: int) -> bool {
    exists|j: int|
        0 <= j < i && alike((#[trigger] pairs[j]).0, pairs[i].0) && pairs[j].1 != pairs[i].1
}

/// The first pair from `i` on that an earlier one contradicts, or the length.
pub open spec fn first_contradiction(pairs: Seq<RuleView>, i: int) -> int
    decreases pairs.len() - i,
{
    if 0 <= i < pairs.len() {
        if contradicted(pairs, i) {
            i
        } else {
            first_contradiction(pairs, i + 1)
        }
    } else {
        pairs.len() as int
    }
}

/// The first pair that is unusable, or the length.
pub open spec fn first_unusable(pairs: Seq<RuleView>, limits: Limits) -> int {
    first_where(pairs, |p: RuleView| unusable(p, limits), 0)
}

/// The batch can be learned, as far as the batch itself goes.
pub open spec fn learnable(pairs: Seq<RuleView>, limits: Limits) -> bool {
    &&& pairs.len() > 0
    &&& first_unusable(pairs, limits) == pairs.len()
    &&& first_contradiction(pairs, 0) == pairs.len()
}

/// The batch cannot be learned, for that reason.
pub open spec fn faulted(pairs: Seq<RuleView>, limits: Limits, e: LearnError) -> bool {
    let bad = first_unusable(pairs, limits);
    let twice = first_contradiction(pairs, 0);
    match e {
        LearnError::Nothing => pairs.len() == 0,
        LearnError::Rule(e) => bad < pairs.len() && side_fault(pairs[bad], limits) == Some(e),
        LearnError::Invalid => bad < pairs.len() && side_fault(pairs[bad], limits) is None,
        LearnError::Conflicting(from) => pairs.len() > 0 && bad == pairs.len() && twice
            < pairs.len() && from@ == pairs[twice].0,
        _ => false,
    }
}

/// Are the two phrases heard alike?
pub fn heard_alike(a: &str, b: &str) -> (r: bool)
    ensures
        r == alike(a@, b@),
{
    same(&to_ascii_lowercase(a), &to_ascii_lowercase(b))
}

fn is_malformed(from: &str, to: &str) -> (r: bool)
    ensures
        r == malformed((from@, to@)),
{
    let chars = chars_of(from);
    trim(from).is_empty() || trim(to).is_empty() || (chars.len() > 0 && chars[0] == '#')
        || contains(from, "=>") || has_break(from) || has_break(to)
}

/// Can the batch be learned, as far as the batch itself goes?
pub fn check_pairs(pairs: &[Rule], limits: &Limits) -> (r: Result<(), LearnError>)
    ensures
        match r {
            Ok(_) => learnable(rules_view(pairs@), *limits),
            Err(e) => faulted(rules_view(pairs@), *limits, e),
        },
{
    let ghost ps = rules_view(pairs@);
    if pairs.len() == 0 {
        return Err(LearnError::Nothing);
    }
    let ghost bad = |p: RuleView| unusable(p, *limits);
    let mut i: usize = 0;
    while i < pairs.len()
        invariant
            i <= pairs@.len(),
            ps == rules_view(pairs@),
            bad == (|p: RuleView| unusable(p, *limits)),
            first_where(ps, bad, 0) == first_where(ps, bad, i as int),
        decreases pairs@.len() - i,
    {
        assert(ps[i as int] == rule_view(pairs@[i as int]));
        match validate_rule_sides(&pairs[i].0, &pairs[i].1, limits) {
            Ok(_) => {},
            Err(e) => {
                return Err(LearnError::Rule(e));
            },
        }
        if is_malformed(&pairs[i].0, &pairs[i].1) {
            return Err(LearnError::Invalid);
        }
        i += 1;
    }
    let mut i: usize = 0;
    while i < pairs.len()
        invariant
            i <= pairs@.len(),
            pairs@.len() > 0,
            ps == rules_view(pairs@),
            first_unusable(ps, *limits) == ps.len(),
            first_contradiction(ps, 0) == first_contradiction(ps, i as int),
        decreases pairs@.len() - i,
    {
        assert(ps[i as int] == rule_view(pairs@[i as int]));
        let mut j: usize = 0;
        while j < i
            invariant
                j <= i < pairs@.len(),
                pairs@.len() > 0,
                ps == rules_view(pairs@),
                ps[i as int] == rule_view(pairs@[i as int]),
                first_unusable(ps, *limits) == ps.len(),
                first_contradiction(ps, 0) == first_contradiction(ps, i as int),
                forall|k: int|
                    0 <= k < j ==> !(alike((#[trigger] ps[k]).0, ps[i as int].0) && ps[k].1
                        != ps[i as int].1),
            decreases i - j,
        {
            assert(ps[j as int] == rule_view(pairs@[j as int]));
            if heard_alike(&pairs[j].0, &pairs[i].0) && !same(&pairs[j].1, &pairs[i].1) {
                assert(contradicted(ps, i as int));
                return Err(LearnError::Conflicting(pairs[i].0.clone()));
            }
            j += 1;
        }
        assert(!contradicted(ps, i as int));
        i += 1;
    }
    Ok(())
}

/// The rule is in the dictionary already.
pub open spec fn known(rules: Seq<RuleView>, p: RuleView) -> bool {
    exists|i: int| 0 <= i < rules.len() && alike((#[trigger] rules[i]).0, p.0) && rules[i].1 == p.1
}

/// The pairs that the dictionary does not hold already.
pub fn unknown_pairs(rules: &[Rule], pairs: &[Rule]) -> (r: Vec<Rule>)
    ensures
        rules_view(r@) == rules_view(pairs@).filter(|p: RuleView| !known(rules_view(rules@), p)),
{
    let ghost rs = rules_view(rules@);
    let ghost ps = rules_view(pairs@);
    let ghost fresh = |p: RuleView| !known(rs, p);
    let mut r: Vec<Rule> = Vec::new();
    let mut i: usize = 0;
    proof {
        filter_ends(ps, fresh);
        assert(rules_view(r@) =~= Seq::<RuleView>::empty());
    }
    while i < pairs.len()
        invariant
            i <= pairs@.len(),
            rs == rules_view(rules@),
            ps == rules_view(pairs@),
            fresh == (|p: RuleView| !known(rs, p)),
            rules_view(r@) == ps.take(i as int).filter(fresh),
        decreases pairs@.len() - i,
    {
        proof {
            filter_step(ps, fresh, i as int);
            assert(ps[i as int] == rule_view(pairs@[i as int]));
        }
        let mut found = false;
        let mut j: usize = 0;
        while j < rules.len()
            invariant
                j <= rules@.len(),
                i < pairs@.len(),
                rs == rules_view(rules@),
                ps == rules_view(pairs@),
                ps[i as int] == rule_view(pairs@[i as int]),
                found ==> known(rs, ps[i as int]),
                !found ==> forall|k: int|
                    0 <= k < j ==> !(alike((#[trigger] rs[k]).0, ps[i as int].0) && rs[k].1
                        == ps[i as int].1),
            decreases rules@.len() - j,
        {
            assert(rs[j as int] == rule_view(rules@[j as int]));
            if heard_alike(&rules[j].0, &pairs[i].0) && same(&rules[j].1, &pairs[i].1) {
                found = true;
            }
            j += 1;
        }
        let ghost before = r@;
        if !found {
            let kept = (pairs[i].0.clone(), pairs[i].1.clone());
            r.push(kept);
            assert(rules_view(r@) =~= rules_view(before).push(ps[i as int]));
        }
        i += 1;
    }
    proof {
        filter_ends(ps, fresh);
    }
    r
}

/// The position of the first rule that is heard like `from`, or the length.
pub open spec fn heard_at(rules: Seq<RuleView>, from: Seq<char>) -> int {
    first_where(rules, |r: RuleView| alike(r.0, from), 0)
}

fn position(rules: &[Rule], from: &str) -> (r: usize)
    ensures
        r == heard_at(rules_view(rules@), from@),
        r <= rules@.len(),
{
    let ghost rs = rules_view(rules@);
    let ghost it = |r: RuleView| alike(r.0, from@);
    let mut i: usize = 0;
    while i < rules.len()
        invariant
            i <= rules@.len(),
            rs == rules_view(rules@),
            it == (|r: RuleView| alike(r.0, from@)),
            first_where(rs, it, 0) == first_where(rs, it, i as int),
        decreases rules@.len() - i,
    {
        assert(rs[i as int] == rule_view(rules@[i as int]));
        if heard_alike(&rules[i].0, from) {
            return i;
        }
        i += 1;
    }
    i
}

/// What a proposal that the person has to confirm would change.
pub open spec fn proposed_change(rules: Seq<RuleView>, p: RuleView) -> ChangeView {
    let i = heard_at(rules, p.0);
    ChangeView {
        rule: p,
        previous: if i < rules.len() {
            Some(rules[i])
        } else {
            None
        },
    }
}

/// What a proposal that the person has to confirm would change.
pub fn proposed_changes(rules: &[Rule], proposal: &[Rule]) -> (r: Vec<LearnedRuleChange>)
    ensures
        changes_view(r@) == rules_view(proposal@).map_values(
            |p: RuleView| proposed_change(rules_view(rules@), p),
        ),
{
    let ghost rs = rules_view(rules@);
    let ghost ps = rules_view(proposal@);
    let ghost change = |p: RuleView| proposed_change(rs, p);
    let mut r: Vec<LearnedRuleChange> = Vec::new();
    let mut i: usize = 0;
    while i < proposal.len()
        invariant
            i <= proposal@.len(),
            rs == rules_view(rules@),
            ps == rules_view(proposal@),
            change == (|p: RuleView| proposed_change(rs, p)),
            r@.len() == i,
            forall|k: int| 0 <= k < i ==> #[trigger] r@[k]@ == change(ps[k]),
        decreases proposal@.len() - i,
    {
        assert(ps[i as int] == rule_view(proposal@[i as int]));
        let at: usize = position(rules, &proposal[i].0);
        let previous = if at < rules.len() {
            assert(rs[at as int] == rule_view(rules@[at as int]));
            Some((rules[at].0.clone(), rules[at].1.clone()))
        } else {
            None
        };
        let c = LearnedRuleChange {
            from: proposal[i].0.clone(),
            to: proposal[i].1.clone(),
            previous,
        };
        r.push(c);
        i += 1;
    }
    assert(changes_view(r@) =~= ps.map_values(change));
    r
}

/// A dictionary in the making.
pub struct Learned {
    pub rules: Seq<RuleView>,
    pub changes: Seq<ChangeView>,
}

/// The dictionary after one more pair, or nothing where it is full.
pub open spec fn learn_one(l: Learned, p: RuleView, max: nat) -> Option<Learned> {
    let i = heard_at(l.rules, p.0);
    if i < l.rules.len() {
        if l.rules[i] == p {
            Some(l)
        } else {
            Some(
                Learned {
                    rules: l.rules.update(i, p),
                    changes: l.changes.push(
                        ChangeView { rule: p, previous: Some(l.rules[i]) },
                    ),
                },
            )
        }
    } else if l.rules.len() >= max {
        None
    } else {
        Some(
            Learned {
                rules: l.rules.push(p),
                changes: l.changes.push(ChangeView { rule: p, previous: None }),
            },
        )
    }
}

/// The dictionary after the first `n` pairs, or nothing where it got full.
pub open spec fn learn_all(rules: Seq<RuleView>, pairs: Seq<RuleView>, n: int, max: nat) -> Option<
    Learned,
>
    decreases n,
{
    if n <= 0 {
        Some(Learned { rules, changes: Seq::empty() })
    } else {
        match learn_all(rules, pairs, n - 1, max) {
            None => None,
            Some(l) => learn_one(l, pairs[n - 1], max),
        }
    }
}

proof fn learn_all_stops(rules: Seq<RuleView>, pairs: Seq<RuleView>, n: int, m: int, max: nat)
    requires
        0 <= n <= m,
        learn_all(rules, pairs, n, max) is None,
    ensures
        learn_all(rules, pairs, m, max) is None,
    decreases m - n,
{
    if n < m {
        learn_all_stops(rules, pairs, n, m - 1, max);
    }
}

/// After a batch has been learned, each phrase of the batch has a rule with the
/// correction of the batch.
pub proof fn learned_rules_hold_the_pairs(
    rules: Seq<RuleView>,
    pairs: Seq<RuleView>,
    n: int,
    max: nat,
    i: int,
)
    requires
        0 <= i < n <= pairs.len(),
        first_contradiction(pairs, 0) == pairs.len(),
        learn_all(rules, pairs, n, max) is Some,
    ensures
        known(learn_all(rules, pairs, n, max)->0.rules, pairs[i]),
    decreases n,
{
    broadcast use crate::seqs::first_where_range;

    let before = learn_all(rules, pairs, n - 1, max)->0;
    let after = learn_all(rules, pairs, n, max)->0;
    let p = pairs[n - 1];
    let at = heard_at(before.rules, p.0);
    let it = |r: RuleView| alike(r.0, p.0);
    crate::seqs::first_where_is_first(before.rules, it, 0);
    if i == n - 1 {
        if at < before.rules.len() {
            assert(after.rules[at] == p);
        } else {
            assert(after.rules[before.rules.len() as int] == p);
        }
    } else {
        learned_rules_hold_the_pairs(rules, pairs, n - 1, max, i);
        no_contradictions(pairs, 0);
        let k = choose|k: int|
            0 <= k < before.rules.len() && alike((#[trigger] before.rules[k]).0, pairs[i].0)
                && before.rules[k].1 == pairs[i].1;
        assert(!contradicted(pairs, n - 1));
        if at < before.rules.len() && k == at {
            assert(it(before.rules[at]));
            assert(alike(pairs[i].0, p.0));
            assert(after.rules[k] == p);
        } else {
            assert(after.rules[k] == before.rules[k]);
        }
    }
}

proof fn no_contradictions(pairs: Seq<RuleView>, i: int)
    requires
        0 <= i <= pairs.len(),
        first_contradiction(pairs, i) == pairs.len(),
    ensures
        forall|k: int| i <= k < pairs.len() ==> !#[trigger] contradicted(pairs, k),
    decreases pairs.len() - i,
{
    if i < pairs.len() {
        assert(!contradicted(pairs, i));
        no_contradictions(pairs, i + 1);
    }
}

/// A batch that changes nothing leaves the dictionary as it is.
pub proof fn no_change_no_write(rules: Seq<RuleView>, pairs: Seq<RuleView>, n: int, max: nat)
    requires
        0 <= n <= pairs.len(),
        learn_all(rules, pairs, n, max) is Some,
        learn_all(rules, pairs, n, max)->0.changes.len() == 0,
    ensures
        learn_all(rules, pairs, n, max)->0.rules == rules,
    decreases n,
{
    if n > 0 {
        let before = learn_all(rules, pairs, n - 1, max)->0;
        assert(before.changes.len() == 0);
        no_change_no_write(rules, pairs, n - 1, max);
    }
}

/// Some phrase of the list is heard like `from`.
pub open spec fn heard_in(rules: Seq<RuleView>, from: Seq<char>) -> bool {
    exists|i: int| 0 <= i < rules.len() && alike((#[trigger] rules[i]).0, from)
}

proof fn heard_at_finds(rules: Seq<RuleView>, from: Seq<char>)
    ensures
        0 <= heard_at(rules, from) <= rules.len(),
        heard_at(rules, from) < rules.len() <==> heard_in(rules, from),
        heard_at(rules, from) < rules.len() ==> alike(rules[heard_at(rules, from)].0, from),
        forall|k: int| 0 <= k < heard_at(rules, from) ==> !alike((#[trigger] rules[k]).0, from),
{
    let it = |r: RuleView| alike(r.0, from);
    crate::seqs::first_where_is_first(rules, it, 0);
    let at = heard_at(rules, from);
    if at < rules.len() {
        assert(it(rules[at]));
    }
    assert forall|k: int| 0 <= k < at implies !alike((#[trigger] rules[k]).0, from) by {
        assert(!it(rules[k]));
    }
}

/// What learning leaves of a dictionary, rule by rule.
spec fn keeps_the_dictionary(
    rules: Seq<RuleView>,
    pairs: Seq<RuleView>,
    learned: Seq<RuleView>,
) -> bool {
    &&& rules.len() <= learned.len() <= rules.len() + pairs.len()
    &&& forall|j: int|
        0 <= j < rules.len() ==> alike((#[trigger] learned[j]).0, rules[j].0) && (learned[j]
            == rules[j] || pairs.contains(learned[j]))
    &&& forall|j: int|
        0 <= j < rules.len() && !heard_in(pairs, rules[j].0) ==> #[trigger] learned[j] == rules[j]
    &&& forall|j: int|
        rules.len() <= j < learned.len() ==> pairs.contains(#[trigger] learned[j]) && !heard_in(
            rules,
            learned[j].0,
        )
    &&& forall|j: int, k: int|
        rules.len() <= j < learned.len() && 0 <= k < j ==> !alike(
            (#[trigger] learned[k]).0,
            (#[trigger] learned[j]).0,
        )
}

proof fn learning_keeps(rules: Seq<RuleView>, pairs: Seq<RuleView>, n: int, max: nat)
    requires
        0 <= n <= pairs.len(),
        learn_all(rules, pairs, n, max) is Some,
    ensures
        keeps_the_dictionary(rules, pairs.take(n), learn_all(rules, pairs, n, max)->0.rules),
        learn_all(rules, pairs, n, max)->0.rules.len() <= max || learn_all(
            rules,
            pairs,
            n,
            max,
        )->0.rules.len() == rules.len(),
    decreases n,
{
    let now = learn_all(rules, pairs, n, max)->0.rules;
    let few = pairs.take(n);
    if n > 0 {
        learning_keeps(rules, pairs, n - 1, max);
        let old_rules = learn_all(rules, pairs, n - 1, max)->0.rules;
        let earlier = pairs.take(n - 1);
        let p = pairs[n - 1];
        let at = heard_at(old_rules, p.0);
        heard_at_finds(old_rules, p.0);
        assert(few[n - 1] == p);
        assert forall|x: RuleView| earlier.contains(x) implies few.contains(x) by {
            let i = choose|i: int| 0 <= i < earlier.len() && earlier[i] == x;
            assert(few[i] == x);
        }
        assert forall|x: Seq<char>| heard_in(earlier, x) implies heard_in(few, x) by {
            let i = choose|i: int| 0 <= i < earlier.len() && alike((#[trigger] earlier[i]).0, x);
            assert(few[i] == earlier[i]);
        }
        assert forall|j: int| 0 <= j < rules.len() implies alike((#[trigger] now[j]).0, rules[j].0)
            && (now[j] == rules[j] || few.contains(now[j])) by {
            assert(alike(old_rules[j].0, rules[j].0));
            if j == at {
                assert(alike(old_rules[at].0, p.0));
            }
        }
        assert forall|j: int|
            0 <= j < rules.len() && !heard_in(few, rules[j].0) implies #[trigger] now[j]
            == rules[j] by {
            assert(old_rules[j] == rules[j]);
            if j == at {
                assert(alike(few[n - 1].0, rules[j].0));
            }
        }
        assert forall|j: int| rules.len() <= j < now.len() implies few.contains(#[trigger] now[j])
            && !heard_in(rules, now[j].0) by {
            if j < old_rules.len() {
                assert(earlier.contains(old_rules[j]));
                assert(few.contains(old_rules[j]));
                assert(!heard_in(rules, old_rules[j].0));
                if j == at {
                    if heard_in(rules, p.0) {
                        let i = choose|i: int|
                            0 <= i < rules.len() && alike((#[trigger] rules[i]).0, p.0);
                        assert(alike(rules[i].0, old_rules[j].0));
                    }
                }
            } else if heard_in(rules, p.0) {
                let i = choose|i: int| 0 <= i < rules.len() && alike((#[trigger] rules[i]).0, p.0);
                assert(alike(old_rules[i].0, rules[i].0));
                assert(alike(old_rules[i].0, p.0));
            }
        }
        assert forall|j: int, k: int| rules.len() <= j < now.len() && 0 <= k < j implies !alike(
            (#[trigger] now[k]).0,
            (#[trigger] now[j]).0,
        ) by {
            if j < old_rules.len() {
                assert(!alike(old_rules[k].0, old_rules[j].0));
            }
        }
    } else {
        assert forall|j: int| 0 <= j < rules.len() implies alike((#[trigger] now[j]).0, rules[j].0) by {}
    }
}

/// Learning keeps the dictionary. No rule is lost or moved: each keeps its place, and
/// a rule that no phrase of the batch is heard like stays as it is; where one is, the
/// correction takes its place. The other corrections follow after all rules, one for
/// each phrase that was not heard before, and the limit holds for a dictionary that
/// grew.
pub proof fn learning_keeps_every_other_rule(
    rules: Seq<RuleView>,
    pairs: Seq<RuleView>,
    max: nat,
)
    requires
        learn_all(rules, pairs, pairs.len() as int, max) is Some,
    ensures
        ({
            let learned = learn_all(rules, pairs, pairs.len() as int, max)->0.rules;
            &&& rules.len() <= learned.len() <= rules.len() + pairs.len()
            &&& learned.len() <= max || learned.len() == rules.len()
            &&& forall|j: int|
                0 <= j < rules.len() ==> alike((#[trigger] learned[j]).0, rules[j].0) && (learned[j]
                    == rules[j] || pairs.contains(learned[j]))
            &&& forall|j: int|
                0 <= j < rules.len() && !heard_in(pairs, rules[j].0) ==> #[trigger] learned[j]
                    == rules[j]
            &&& forall|j: int|
                rules.len() <= j < learned.len() ==> pairs.contains(#[trigger] learned[j])
                    && !heard_in(rules, learned[j].0)
            &&& forall|j: int, k: int|
                rules.len() <= j < learned.len() && 0 <= k < j ==> !alike(
                    (#[trigger] learned[k]).0,
                    (#[trigger] learned[j]).0,
                )
        }),
{
    learning_keeps(rules, pairs, pairs.len() as int, max);
    assert(pairs.take(pairs.len() as int) =~= pairs);
}

/// A batch is refused for its size only where the dictionary is full: never where it
/// has room for every pair, and never where every phrase is heard by it already.
pub proof fn room_is_the_only_limit(rules: Seq<RuleView>, pairs: Seq<RuleView>, max: nat)
    requires
        rules.len() + pairs.len() <= max || forall|i: int|
            0 <= i < pairs.len() ==> heard_in(rules, (#[trigger] pairs[i]).0),
    ensures
        learn_all(rules, pairs, pairs.len() as int, max) is Some,
{
    room_for_part(rules, pairs, pairs.len() as int, max);
}

proof fn room_for_part(rules: Seq<RuleView>, pairs: Seq<RuleView>, n: int, max: nat)
    requires
        0 <= n <= pairs.len(),
        rules.len() + pairs.len() <= max || forall|i: int|
            0 <= i < pairs.len() ==> heard_in(rules, (#[trigger] pairs[i]).0),
    ensures
        learn_all(rules, pairs, n, max) is Some,
    decreases n,
{
    if n > 0 {
        room_for_part(rules, pairs, n - 1, max);
        learning_keeps(rules, pairs, n - 1, max);
        let old_rules = learn_all(rules, pairs, n - 1, max)->0.rules;
        let p = pairs[n - 1];
        heard_at_finds(old_rules, p.0);
        if rules.len() + pairs.len() > max {
            assert(heard_in(rules, p.0));
            let i = choose|i: int| 0 <= i < rules.len() && alike((#[trigger] rules[i]).0, p.0);
            assert(alike(old_rules[i].0, rules[i].0));
            assert(alike(old_rules[i].0, p.0));
        }
    }
}

/// A full dictionary learns no phrase that it does not hear.
pub proof fn a_full_dictionary_grows_no_further(
    rules: Seq<RuleView>,
    pairs: Seq<RuleView>,
    max: nat,
    i: int,
)
    requires
        rules.len() >= max,
        0 <= i < pairs.len(),
        !heard_in(rules, pairs[i].0),
    ensures
        learn_all(rules, pairs, pairs.len() as int, max) is None,
{
    let n = pairs.len() as int;
    if learn_all(rules, pairs, n, max) is Some {
        learning_keeps(rules, pairs, n, max);
        assert(pairs.take(n) =~= pairs);
        let learned = learn_all(rules, pairs, n, max)->0.rules;
        batch_is_heard(rules, pairs, n, max, i);
        let k = choose|k: int| 0 <= k < learned.len() && alike((#[trigger] learned[k]).0, pairs[i].0);
        assert(learned.len() == rules.len());
        assert(alike(learned[k].0, rules[k].0));
        assert(alike(rules[k].0, pairs[i].0));
    }
}

/// Every phrase of a batch that was learned is heard.
proof fn batch_is_heard(rules: Seq<RuleView>, pairs: Seq<RuleView>, n: int, max: nat, i: int)
    requires
        0 <= i < n <= pairs.len(),
        learn_all(rules, pairs, n, max) is Some,
    ensures
        heard_in(learn_all(rules, pairs, n, max)->0.rules, pairs[i].0),
    decreases n,
{
    let old_rules = learn_all(rules, pairs, n - 1, max)->0.rules;
    let now = learn_all(rules, pairs, n, max)->0.rules;
    let p = pairs[n - 1];
    let at = heard_at(old_rules, p.0);
    heard_at_finds(old_rules, p.0);
    if i == n - 1 {
        assert(now[at].0 == p.0 || alike(now[at].0, p.0));
    } else {
        batch_is_heard(rules, pairs, n - 1, max, i);
        let k = choose|k: int|
            0 <= k < old_rules.len() && alike((#[trigger] old_rules[k]).0, pairs[i].0);
        if k == at {
            assert(alike(now[k].0, pairs[i].0));
        } else {
            assert(now[k] == old_rules[k]);
        }
    }
}

/// What the changes say of a dictionary that was learned.
spec fn accounts_for(
    rules: Seq<RuleView>,
    pairs: Seq<RuleView>,
    learned: Seq<RuleView>,
    changes: Seq<ChangeView>,
) -> bool {
    &&& forall|c: int|
        0 <= c < changes.len() ==> pairs.contains((#[trigger] changes[c]).rule)
            && match changes[c].previous {
            Some(q) => alike(q.0, changes[c].rule.0) && q != changes[c].rule && (rules.contains(q)
                || pairs.contains(q)),
            None => !heard_in(rules, changes[c].rule.0),
        }
    &&& forall|j: int|
        0 <= j < rules.len() && #[trigger] learned[j] != rules[j] ==> replaces(changes, rules[j])
    &&& forall|j: int|
        rules.len() <= j < learned.len() ==> adds(changes, (#[trigger] learned[j]).0)
    &&& additions(changes) == learned.len() - rules.len()
}

/// Some change replaces the rule.
pub open spec fn replaces(changes: Seq<ChangeView>, r: RuleView) -> bool {
    exists|c: int| 0 <= c < changes.len() && (#[trigger] changes[c]).previous == Some(r)
}

/// Some change adds a rule for the phrase, where there was none.
pub open spec fn adds(changes: Seq<ChangeView>, from: Seq<char>) -> bool {
    exists|c: int|
        0 <= c < changes.len() && (#[trigger] changes[c]).previous is None && alike(
            changes[c].rule.0,
            from,
        )
}

/// How many of the changes add a rule.
pub open spec fn additions(changes: Seq<ChangeView>) -> int
    decreases changes.len(),
{
    if changes.len() == 0 {
        0
    } else {
        additions(changes.drop_last()) + (if changes.last().previous is None {
            1int
        } else {
            0
        })
    }
}

proof fn changes_account(rules: Seq<RuleView>, pairs: Seq<RuleView>, n: int, max: nat)
    requires
        0 <= n <= pairs.len(),
        learn_all(rules, pairs, n, max) is Some,
    ensures
        accounts_for(
            rules,
            pairs,
            learn_all(rules, pairs, n, max)->0.rules,
            learn_all(rules, pairs, n, max)->0.changes,
        ),
    decreases n,
{
    if n > 0 {
        changes_account(rules, pairs, n - 1, max);
        learning_keeps(rules, pairs, n - 1, max);
        let few = pairs.take(n - 1);
        let before = learn_all(rules, pairs, n - 1, max)->0;
        let after = learn_all(rules, pairs, n, max)->0;
        let p = pairs[n - 1];
        let at = heard_at(before.rules, p.0);
        heard_at_finds(before.rules, p.0);
        if after.changes != before.changes {
            let m = before.changes.len() as int;
            assert(after.changes[m].rule == p);
            assert(after.changes.drop_last() =~= before.changes);
            assert forall|x: RuleView| few.contains(x) implies pairs.contains(x) by {
                let i = choose|i: int| 0 <= i < few.len() && few[i] == x;
                assert(pairs[i] == x);
            }
            assert forall|c: int| 0 <= c < after.changes.len() implies pairs.contains(
                (#[trigger] after.changes[c]).rule,
            ) && match after.changes[c].previous {
                Some(q) => alike(q.0, after.changes[c].rule.0) && q != after.changes[c].rule && (
                rules.contains(q) || pairs.contains(q)),
                None => !heard_in(rules, after.changes[c].rule.0),
            } by {
                if c < m {
                    assert(after.changes[c] == before.changes[c]);
                } else if at < before.rules.len() {
                    let q = before.rules[at];
                    if at < rules.len() {
                        if q == rules[at] {
                            assert(rules.contains(q));
                        } else {
                            assert(few.contains(q));
                        }
                    } else {
                        assert(few.contains(q));
                    }
                } else if heard_in(rules, p.0) {
                    let i = choose|i: int|
                        0 <= i < rules.len() && alike((#[trigger] rules[i]).0, p.0);
                    assert(alike(before.rules[i].0, rules[i].0));
                    assert(alike(before.rules[i].0, p.0));
                }
            }
            assert forall|r: RuleView| replaces(before.changes, r) implies replaces(
                after.changes,
                r,
            ) by {
                let c = choose|c: int|
                    0 <= c < before.changes.len() && (#[trigger] before.changes[c]).previous
                        == Some(r);
                assert(after.changes[c] == before.changes[c]);
            }
            assert forall|j: int|
                0 <= j < rules.len() && #[trigger] after.rules[j] != rules[j] implies replaces(
                after.changes,
                rules[j],
            ) by {
                if before.rules[j] != rules[j] {
                    assert(replaces(before.changes, rules[j]));
                } else {
                    assert(j == at);
                    assert(after.changes[m].previous == Some(rules[j]));
                }
            }
            assert forall|j: int| rules.len() <= j < after.rules.len() implies adds(
                after.changes,
                (#[trigger] after.rules[j]).0,
            ) by {
                if j < before.rules.len() {
                    assert(adds(before.changes, before.rules[j].0));
                    let c = choose|c: int|
                        0 <= c < before.changes.len() && (#[trigger] before.changes[c]).previous
                            is None && alike(before.changes[c].rule.0, before.rules[j].0);
                    assert(after.changes[c] == before.changes[c]);
                    if j == at {
                        assert(alike(after.changes[c].rule.0, p.0));
                    }
                } else {
                    assert(after.changes[m].previous is None);
                }
            }
        }
    }
}

/// The changes that are reported account for what became of the dictionary: each
/// brings a correction of the batch, in place of the rule that it names or where no
/// rule was heard; every rule that another one stands for now is named as replaced;
/// every rule that was added is reported as added, and no more than these.
pub proof fn the_report_accounts_for_the_dictionary(
    rules: Seq<RuleView>,
    pairs: Seq<RuleView>,
    max: nat,
)
    requires
        learn_all(rules, pairs, pairs.len() as int, max) is Some,
    ensures
        ({
            let l = learn_all(rules, pairs, pairs.len() as int, max)->0;
            &&& forall|c: int|
                0 <= c < l.changes.len() ==> pairs.contains((#[trigger] l.changes[c]).rule)
                    && match l.changes[c].previous {
                    Some(q) => alike(q.0, l.changes[c].rule.0) && q != l.changes[c].rule && (
                    rules.contains(q) || pairs.contains(q)),
                    None => !heard_in(rules, l.changes[c].rule.0),
                }
            &&& forall|j: int|
                0 <= j < rules.len() && #[trigger] l.rules[j] != rules[j] ==> replaces(
                    l.changes,
                    rules[j],
                )
            &&& forall|j: int|
                rules.len() <= j < l.rules.len() ==> adds(l.changes, (#[trigger] l.rules[j]).0)
            &&& additions(l.changes) == l.rules.len() - rules.len()
        }),
{
    changes_account(rules, pairs, pairs.len() as int, max);
}

/// The pairs of a batch that correct phrases heard alike are the same.
pub open spec fn of_one_spelling(pairs: Seq<RuleView>) -> bool {
    forall|i: int, j: int|
        0 <= i < pairs.len() && 0 <= j < pairs.len() && alike(
            (#[trigger] pairs[i]).0,
            (#[trigger] pairs[j]).0,
        ) ==> pairs[i] == pairs[j]
}

/// To learn a batch once more changes nothing. (A batch that spells one phrase in two
/// ways goes back and forth between them.)
pub proof fn learning_twice_is_learning_once(
    rules: Seq<RuleView>,
    pairs: Seq<RuleView>,
    max: nat,
)
    requires
        learn_all(rules, pairs, pairs.len() as int, max) is Some,
        of_one_spelling(pairs),
    ensures
        ({
            let learned = learn_all(rules, pairs, pairs.len() as int, max)->0.rules;
            learn_all(learned, pairs, pairs.len() as int, max) == Some(
                Learned { rules: learned, changes: Seq::empty() },
            )
        }),
{
    let n = pairs.len() as int;
    let learned = learn_all(rules, pairs, n, max)->0.rules;
    assert forall|i: int| 0 <= i < n implies heard_at(learned, (#[trigger] pairs[i]).0)
        < learned.len() && learned[heard_at(learned, pairs[i].0)] == pairs[i] by {
        first_heard_is_the_pair(rules, pairs, n, max, i);
    }
    nothing_left_to_learn(learned, pairs, n, max);
}

proof fn first_heard_is_the_pair(
    rules: Seq<RuleView>,
    pairs: Seq<RuleView>,
    n: int,
    max: nat,
    i: int,
)
    requires
        0 <= i < n <= pairs.len(),
        learn_all(rules, pairs, n, max) is Some,
        of_one_spelling(pairs),
    ensures
        ({
            let learned = learn_all(rules, pairs, n, max)->0.rules;
            let at = heard_at(learned, pairs[i].0);
            at < learned.len() && learned[at] == pairs[i]
        }),
    decreases n,
{
    let old_rules = learn_all(rules, pairs, n - 1, max)->0.rules;
    let now = learn_all(rules, pairs, n, max)->0.rules;
    let p = pairs[n - 1];
    let at = heard_at(old_rules, p.0);
    heard_at_finds(old_rules, p.0);
    heard_at_finds(now, pairs[i].0);
    let found = heard_at(now, pairs[i].0);
    if i == n - 1 {
        assert(now[at] == p);
        assert(alike(now[at].0, pairs[i].0));
        assert(found <= at);
        if found < at {
            assert(now[found] == old_rules[found]);
        }
    } else {
        first_heard_is_the_pair(rules, pairs, n - 1, max, i);
        let k = heard_at(old_rules, pairs[i].0);
        heard_at_finds(old_rules, pairs[i].0);
        if k == at {
            assert(alike(pairs[i].0, p.0));
            assert(pairs[i] == p);
        }
        assert(now[k] == pairs[i]);
        assert(alike(now[k].0, pairs[i].0));
        assert(found <= k);
        if found < k {
            if found == at {
                assert(alike(old_rules[at].0, pairs[i].0));
            } else {
                assert(now[found] == old_rules[found]);
            }
        }
    }
}

proof fn nothing_left_to_learn(rules: Seq<RuleView>, pairs: Seq<RuleView>, n: int, max: nat)
    requires
        0 <= n <= pairs.len(),
        forall|i: int|
            0 <= i < pairs.len() ==> heard_at(rules, (#[trigger] pairs[i]).0) < rules.len()
                && rules[heard_at(rules, pairs[i].0)] == pairs[i],
    ensures
        learn_all(rules, pairs, n, max) == Some(Learned { rules, changes: Seq::empty() }),
    decreases n,
{
    if n > 0 {
        nothing_left_to_learn(rules, pairs, n - 1, max);
        assert(rules[heard_at(rules, pairs[n - 1].0)] == pairs[n - 1]);
    }
}

/// A batch can be learned exactly where it has pairs, each of them fits a dictionary
/// line, and no two correct phrases that are heard alike in different ways.
pub proof fn what_can_be_learned(pairs: Seq<RuleView>, limits: Limits)
    ensures
        learnable(pairs, limits) <==> {
            &&& pairs.len() > 0
            &&& forall|i: int| 0 <= i < pairs.len() ==> !unusable(#[trigger] pairs[i], limits)
            &&& forall|i: int, j: int|
                0 <= i < j < pairs.len() && alike((#[trigger] pairs[i]).0, (#[trigger] pairs[j]).0)
                    ==> pairs[i].1 == pairs[j].1
        },
{
    let bad = |p: RuleView| unusable(p, limits);
    crate::seqs::first_where_is_first(pairs, bad, 0);
    if first_unusable(pairs, limits) == pairs.len() {
        assert forall|i: int| 0 <= i < pairs.len() implies !unusable(#[trigger] pairs[i], limits) by {
            assert(!bad(pairs[i]));
        }
    } else {
        assert(bad(pairs[first_unusable(pairs, limits)]));
    }
    contradictions_found(pairs, 0);
    if first_contradiction(pairs, 0) == pairs.len() {
        assert forall|i: int, j: int|
            0 <= i < j < pairs.len() && alike((#[trigger] pairs[i]).0, (#[trigger] pairs[j]).0)
            implies pairs[i].1 == pairs[j].1 by {
            assert(!contradicted(pairs, j));
        }
    } else {
        let j = first_contradiction(pairs, 0);
        let i = choose|i: int|
            0 <= i < j && alike((#[trigger] pairs[i]).0, pairs[j].0) && pairs[i].1 != pairs[j].1;
        assert(alike(pairs[i].0, pairs[j].0) && pairs[i].1 != pairs[j].1);
    }
}

proof fn contradictions_found(pairs: Seq<RuleView>, i: int)
    requires
        0 <= i <= pairs.len(),
    ensures
        i <= first_contradiction(pairs, i) <= pairs.len(),
        first_contradiction(pairs, i) < pairs.len() ==> contradicted(
            pairs,
            first_contradiction(pairs, i),
        ),
        forall|k: int|
            i <= k < first_contradiction(pairs, i) ==> !#[trigger] contradicted(pairs, k),
    decreases pairs.len() - i,
{
    if i < pairs.len() && !contradicted(pairs, i) {
        contradictions_found(pairs, i + 1);
    }
}

/// What to do with a batch of corrections.
#[derive(Debug, PartialEq, Eq)]
pub enum LearnPlan {
    /// The person has to confirm these changes; nothing is written.
    Review(Vec<LearnedRuleChange>),
    /// The dictionary holds the corrections already; nothing is written.
    Unchanged,
    /// The entries of the edit to save, and what it changes.
    Save(Vec<String>, Vec<LearnedRuleChange>),
}

/// The rules as entries of an edit.
pub open spec fn entries(rules: Seq<RuleView>) -> Seq<Seq<char>> {
    rules.map_values(|r: RuleView| rule_line(r))
}

/// `r` is what to do with the batch: put the proposal up for review where there is
/// one, and else learn all pairs, unless the dictionary is full or holds them.
pub open spec fn planned(
    rules: Seq<RuleView>,
    pairs: Seq<RuleView>,
    proposal: Option<Seq<RuleView>>,
    limits: Limits,
    r: Result<LearnPlan, LearnError>,
) -> bool {
    let learned = learn_all(rules, pairs, pairs.len() as int, limits.max_rules as nat);
    match proposal {
        Some(proposal) => r is Ok && r->Ok_0 is Review && changes_view(r->Ok_0->Review_0@)
            == proposal.map_values(|p: RuleView| proposed_change(rules, p)),
        None => match r {
            Ok(LearnPlan::Review(_)) => false,
            Ok(LearnPlan::Unchanged) => learned is Some && learned->0.changes.len() == 0,
            Ok(LearnPlan::Save(lines, changes)) => learned is Some && learned->0.changes.len() > 0
                && texts(lines@) == entries(learned->0.rules) && changes_view(changes@)
                == learned->0.changes,
            Err(e) => learned is None && e == (LearnError::TooMany { max: limits.max_rules }),
        },
    }
}

/// What is saved for a batch: every line of the dictionary that no phrase of the batch
/// is heard like, unchanged and at its place; every correction of the batch, where it
/// does not contradict itself; and no fewer lines than the dictionary had. The rest of
/// the lines are the batch's own.
pub proof fn saved_corrections_keep_the_other_lines(
    rules: Seq<RuleView>,
    pairs: Seq<RuleView>,
    limits: Limits,
    r: Result<LearnPlan, LearnError>,
)
    requires
        planned(rules, pairs, None, limits, r),
        r matches Ok(LearnPlan::Save(_, _)),
    ensures
        ({
            let lines = texts(r->Ok_0->Save_0@);
            &&& rules.len() <= lines.len()
            &&& lines.len() <= limits.max_rules || lines.len() == rules.len()
            &&& forall|j: int|
                0 <= j < rules.len() && !heard_in(pairs, rules[j].0) ==> #[trigger] lines[j]
                    == rules[j].0 + " => "@ + rules[j].1
            &&& forall|j: int|
                0 <= j < lines.len() ==> is_line_of(rules, #[trigger] lines[j]) || is_line_of(
                    pairs,
                    lines[j],
                )
            &&& learnable(pairs, limits) ==> forall|i: int|
                0 <= i < pairs.len() ==> corrected_in(lines, #[trigger] pairs[i])
        }),
{
    let n = pairs.len() as int;
    let max = limits.max_rules as nat;
    let learned = learn_all(rules, pairs, n, max)->0.rules;
    let lines = texts(r->Ok_0->Save_0@);
    learning_keeps_every_other_rule(rules, pairs, max);
    assert forall|j: int| 0 <= j < lines.len() implies is_line_of(rules, #[trigger] lines[j])
        || is_line_of(pairs, lines[j]) by {
        assert(lines[j] == rule_line(learned[j]));
        if j < rules.len() && learned[j] == rules[j] {
            assert(lines[j] == rule_line(rules[j]));
        } else {
            assert(pairs.contains(learned[j]));
            let i = choose|i: int| 0 <= i < pairs.len() && pairs[i] == learned[j];
            assert(lines[j] == rule_line(pairs[i]));
        }
    }
    assert forall|i: int| 0 <= i < pairs.len() && learnable(pairs, limits) implies corrected_in(
        lines,
        #[trigger] pairs[i],
    ) by {
        learned_rules_hold_the_pairs(rules, pairs, n, max, i);
        let k = choose|k: int|
            0 <= k < learned.len() && alike((#[trigger] learned[k]).0, pairs[i].0) && learned[k].1
                == pairs[i].1;
        assert(lines[k] == rule_line(learned[k]));
        assert(is_correction(lines[k], learned[k].0, pairs[i]));
    }
}

/// The line is that of one of the rules.
pub open spec fn is_line_of(rules: Seq<RuleView>, line: Seq<char>) -> bool {
    exists|i: int| 0 <= i < rules.len() && line == rule_line(#[trigger] rules[i])
}

/// The line corrects what is heard like the phrase of the pair as the pair does.
pub open spec fn is_correction(line: Seq<char>, from: Seq<char>, p: RuleView) -> bool {
    alike(from, p.0) && line == from + " => "@ + p.1
}

/// One of the lines corrects the phrase of the pair as the pair does.
pub open spec fn corrected_in(lines: Seq<Seq<char>>, p: RuleView) -> bool {
    exists|k: int, from: Seq<char>|
        0 <= k < lines.len() && #[trigger] is_correction(lines[k], from, p)
}

/// What to do with a batch is settled by the dictionary and the batch: a proposal is
/// put up for review and nothing is written; without one, a batch that the dictionary
/// holds already writes nothing, and every other one is saved, unless the dictionary
/// has no room for it.
pub proof fn every_batch_has_one_plan(
    rules: Seq<RuleView>,
    pairs: Seq<RuleView>,
    proposal: Option<Seq<RuleView>>,
    limits: Limits,
    r: Result<LearnPlan, LearnError>,
)
    requires
        planned(rules, pairs, proposal, limits, r),
    ensures
        proposal is Some <==> (r matches Ok(LearnPlan::Review(_))),
        proposal is None && rules.len() + pairs.len() <= limits.max_rules ==> r is Ok,
        proposal is None && (forall|i: int|
            0 <= i < pairs.len() ==> heard_at(rules, (#[trigger] pairs[i]).0) < rules.len()
                && rules[heard_at(rules, pairs[i].0)] == pairs[i]) ==> (r matches Ok(
            LearnPlan::Unchanged,
        )),
        proposal is None && (exists|i: int|
            0 <= i < pairs.len() && !heard_in(rules, (#[trigger] pairs[i]).0)) ==> !(r matches Ok(
            LearnPlan::Unchanged,
        )),
{
    let n = pairs.len() as int;
    let max = limits.max_rules as nat;
    if proposal is None {
        if rules.len() + pairs.len() <= max {
            room_is_the_only_limit(rules, pairs, max);
        }
        if forall|i: int|
            0 <= i < pairs.len() ==> heard_at(rules, (#[trigger] pairs[i]).0) < rules.len()
                && rules[heard_at(rules, pairs[i].0)] == pairs[i] {
            nothing_left_to_learn(rules, pairs, n, max);
        }
        if exists|i: int| 0 <= i < pairs.len() && !heard_in(rules, (#[trigger] pairs[i]).0) {
            let i = choose|i: int| 0 <= i < pairs.len() && !heard_in(rules, (#[trigger] pairs[i]).0);
            if r matches Ok(LearnPlan::Unchanged) {
                no_change_no_write(rules, pairs, n, max);
                batch_is_heard(rules, pairs, n, max, i);
            }
        }
    }
}

/// What to do with a batch of corrections, given the dictionary and, where the
/// batch is risky, what is proposed to the person in its place.
pub fn plan_learning(
    rules: &[Rule],
    pairs: &[Rule],
    proposal: Option<&[Rule]>,
    limits: &Limits,
) -> (r: Result<LearnPlan, LearnError>)
    ensures
        planned(
            rules_view(rules@),
            rules_view(pairs@),
            match proposal {
                Some(p) => Some(rules_view(p@)),
                None => None,
            },
            *limits,
            r,
        ),
{
    if let Some(p) = proposal {
        return Ok(LearnPlan::Review(proposed_changes(rules, p)));
    }
    let ghost rs = rules_view(rules@);
    let ghost ps = rules_view(pairs@);
    let ghost max = limits.max_rules as nat;
    let mut now: Vec<Rule> = Vec::new();
    let mut i: usize = 0;
    while i < rules.len()
        invariant
            i <= rules@.len(),
            now@.len() == i,
            forall|k: int| 0 <= k < i ==> rule_view(#[trigger] now@[k]) == rule_view(rules@[k]),
        decreases rules@.len() - i,
    {
        let kept = (rules[i].0.clone(), rules[i].1.clone());
        now.push(kept);
        i += 1;
    }
    assert(rules_view(now@) =~= rs);
    let mut changes: Vec<LearnedRuleChange> = Vec::new();
    assert(changes_view(changes@) =~= Seq::<ChangeView>::empty());
    let mut i: usize = 0;
    while i < pairs.len()
        invariant
            i <= pairs@.len(),
            rs == rules_view(rules@),
            ps == rules_view(pairs@),
            max == limits.max_rules as nat,
            proposal is None,
            learn_all(rs, ps, i as int, max) == Some(
                Learned { rules: rules_view(now@), changes: changes_view(changes@) },
            ),
        decreases pairs@.len() - i,
    {
        assert(ps[i as int] == rule_view(pairs@[i as int]));
        let ghost before = rules_view(now@);
        let ghost changed = changes_view(changes@);
        let at: usize = position(&now, &pairs[i].0);
        let p = (pairs[i].0.clone(), pairs[i].1.clone());
        if at < now.len() {
            assert(before[at as int] == rule_view(now@[at as int]));
            if !same(&now[at].0, &p.0) || !same(&now[at].1, &p.1) {
                let previous = (now[at].0.clone(), now[at].1.clone());
                let c = LearnedRuleChange {
                    from: p.0.clone(),
                    to: p.1.clone(),
                    previous: Some(previous),
                };
                now.set(at, p);
                changes.push(c);
                assert(rules_view(now@) =~= before.update(at as int, ps[i as int]));
                assert(changes_view(changes@) =~= changed.push(c@));
            }
        } else {
            if now.len() >= limits.max_rules {
                proof {
                    assert(learn_all(rs, ps, i + 1, max) is None);
                    learn_all_stops(rs, ps, i + 1, ps.len() as int, max);
                }
                return Err(LearnError::TooMany { max: limits.max_rules });
            }
            let c = LearnedRuleChange { from: p.0.clone(), to: p.1.clone(), previous: None };
            now.push(p);
            changes.push(c);
            assert(rules_view(now@) =~= before.push(ps[i as int]));
            assert(changes_view(changes@) =~= changed.push(c@));
        }
        i += 1;
    }
    if changes.len() == 0 {
        return Ok(LearnPlan::Unchanged);
    }
    let mut out: Vec<String> = Vec::new();
    let ghost done = rules_view(now@);
    let mut i: usize = 0;
    while i < now.len()
        invariant
            i <= now@.len(),
            done == rules_view(now@),
            out@.len() == i,
            forall|k: int| 0 <= k < i ==> #[trigger] out@[k]@ == rule_line(done[k]),
        decreases now@.len() - i,
    {
        assert(done[i as int] == rule_view(now@[i as int]));
        out.push(format_rule(&now[i].0, &now[i].1));
        i += 1;
    }
    assert(texts(out@) =~= entries(done));
    Ok(LearnPlan::Save(out, changes))
}

/// What to do with a batch of corrections: one that cannot be learned is refused as
/// a whole, and nothing of it is written.
pub fn learn_correction_pairs(
    document: &RulesDocument,
    pairs: &[Rule],
    proposal: Option<&[Rule]>,
    limits: &Limits,
) -> (r: Result<LearnPlan, LearnError>)
    ensures
        if learnable(rules_view(pairs@), *limits) {
            planned(
                rules_view(document.rules@),
                rules_view(pairs@),
                match proposal {
                    Some(p) => Some(rules_view(p@)),
                    None => None,
                },
                *limits,
                r,
            )
        } else {
            r is Err && faulted(rules_view(pairs@), *limits, r->Err_0)
        },
{
    match check_pairs(pairs, limits) {
        Ok(_) => plan_learning(&document.rules, pairs, proposal, limits),
        Err(e) => {
            proof {
                faulted_is_not_learnable(rules_view(pairs@), *limits, e);
            }
            Err(e)
        },
    }
}

proof fn faulted_is_not_learnable(pairs: Seq<RuleView>, limits: Limits, e: LearnError)
    requires
        faulted(pairs, limits, e),
    ensures
        !learnable(pairs, limits),
{
}

/// The number of the next attempt after one that found the file changed. The
/// attempts are numbered from 1.
pub fn after_conflict(attempt: u8) -> (r: Result<u8, LearnError>)
    ensures
        attempt < LEARN_ATTEMPTS ==> r == Ok::<u8, LearnError>((attempt + 1) as u8),
        attempt >= LEARN_ATTEMPTS ==> r == Err::<u8, LearnError>(LearnError::KeptChanging),
{
    if attempt < LEARN_ATTEMPTS {
        Ok(attempt + 1)
    } else {
        Err(LearnError::KeptChanging)
    }
}

/// What a proposal says of a correction: the rule that it would replace is one of the
/// dictionary that is heard like it, the first of them; it would replace none only
/// where none is.
pub proof fn proposals_name_what_they_replace(rules: Seq<RuleView>, p: RuleView)
    ensures
        proposed_change(rules, p).rule == p,
        match proposed_change(rules, p).previous {
            Some(q) => exists|i: int|
                0 <= i < rules.len() && #[trigger] rules[i] == q && alike(q.0, p.0) && forall|j: int|
                    0 <= j < i ==> !alike((#[trigger] rules[j]).0, p.0),
            None => !heard_in(rules, p.0),
        },
{
    heard_at_finds(rules, p.0);
    let at = heard_at(rules, p.0);
    if at < rules.len() {
        assert(rules[at] == proposed_change(rules, p).previous->0);
    }
}

/// Phrases are heard alike in whatever case their ASCII letters are written, and that
/// divides all phrases into classes.
pub proof fn phrases_are_heard_in_any_case(a: Seq<char>, b: Seq<char>, c: Seq<char>)
    ensures
        alike(a, a),
        alike(a, b) == alike(b, a),
        alike(a, b) && alike(b, c) ==> alike(a, c),
        alike(a, ascii_lowercase(a)),
        alike(a, b) ==> a.len() == b.len(),
        alike(a, b) ==> forall|i: int|
            0 <= i < a.len() && !('A' <= #[trigger] a[i] <= 'Z') && !('A' <= b[i] <= 'Z') ==> a[i]
                == b[i],
{
    let low = ascii_lowercase(a);
    assert(ascii_lowercase(low) =~= low);
    if alike(a, b) {
        assert(ascii_lowercase(a).len() == ascii_lowercase(b).len());
        assert forall|i: int|
            0 <= i < a.len() && !('A' <= #[trigger] a[i] <= 'Z') && !('A' <= b[i] <= 'Z') implies a[i]
            == b[i] by {
            assert(ascii_lowercase(a)[i] == ascii_lowercase(b)[i]);
        }
    }
}

/// Why a batch is refused is settled by the batch: no corrections at all, the first one
/// that no dictionary line can hold, or, where there is none, the first that
/// contradicts one before it.
pub proof fn a_batch_is_refused_for_its_first_fault(
    pairs: Seq<RuleView>,
    limits: Limits,
    e: LearnError,
)
    requires
        faulted(pairs, limits, e),
    ensures
        !learnable(pairs, limits),
        pairs.len() == 0 <==> e == LearnError::Nothing,
        e is Rule || e is Invalid ==> exists|i: int|
            0 <= i < pairs.len() && unusable(#[trigger] pairs[i], limits) && forall|j: int|
                0 <= j < i ==> !unusable(#[trigger] pairs[j], limits),
        e is Conflicting ==> exists|i: int|
            0 <= i < pairs.len() && (#[trigger] pairs[i]).0 == e->Conflicting_0@ && contradicted(
                pairs,
                i,
            ),
        e is Conflicting ==> forall|i: int|
            0 <= i < pairs.len() ==> !unusable(#[trigger] pairs[i], limits),
        !(e is TooMany) && !(e is KeptChanging),
{
    let bad = first_unusable(pairs, limits);
    let faulty = |p: RuleView| unusable(p, limits);
    crate::seqs::first_where_is_first(pairs, faulty, 0);
    contradictions_found(pairs, 0);
    if e is Rule || e is Invalid {
        assert(faulty(pairs[bad]));
        assert(unusable(pairs[bad], limits));
        assert forall|j: int| 0 <= j < bad implies !unusable(#[trigger] pairs[j], limits) by {
            assert(!faulty(pairs[j]));
        }
    }
    if e is Conflicting {
        let twice = first_contradiction(pairs, 0);
        assert(pairs[twice].0 == e->Conflicting_0@);
        assert forall|i: int| 0 <= i < pairs.len() implies !unusable(
            #[trigger] pairs[i],
            limits,
        ) by {
            assert(!faulty(pairs[i]));
        }
    }
}

/// A correction is unknown to a dictionary until it is learned: one of a phrase that is
/// not heard, and one of a phrase that is corrected in other ways alone; afterwards
/// none of the batch is.
pub proof fn corrections_are_unknown_until_learned(
    rules: Seq<RuleView>,
    pairs: Seq<RuleView>,
    max: nat,
    p: RuleView,
    i: int,
)
    ensures
        !heard_in(rules, p.0) ==> !known(rules, p),
        (forall|k: int|
            0 <= k < rules.len() && alike((#[trigger] rules[k]).0, p.0) ==> rules[k].1 != p.1)
            ==> !known(rules, p),
        rules.contains(p) ==> known(rules, p),
        0 <= i < pairs.len() && first_contradiction(pairs, 0) == pairs.len() && learn_all(
            rules,
            pairs,
            pairs.len() as int,
            max,
        ) is Some ==> known(
            learn_all(rules, pairs, pairs.len() as int, max)->0.rules,
            pairs[i],
        ),
{
    if known(rules, p) {
        let k = choose|k: int|
            0 <= k < rules.len() && alike((#[trigger] rules[k]).0, p.0) && rules[k].1 == p.1;
        assert(alike(rules[k].0, p.0));
    }
    if rules.contains(p) {
        let k = choose|k: int| 0 <= k < rules.len() && rules[k] == p;
        assert(alike(rules[k].0, p.0) && rules[k].1 == p.1);
    }
    if 0 <= i < pairs.len() && first_contradiction(pairs, 0) == pairs.len() && learn_all(
        rules,
        pairs,
        pairs.len() as int,
        max,
    ) is Some {
        learned_rules_hold_the_pairs(rules, pairs, pairs.len() as int, max, i);
    }
}

/// A correction that is taken, with visible characters at the ends of both sides, is
/// written as a line that reads back as that correction.
pub proof fn learned_lines_read_back(p: RuleView)
    requires
        !malformed(p),
        clean(p.0),
        clean(p.1),
    ensures
        line_rule(rule_line(p)) == Some(p),
        !breaks(rule_line(p)),
{
    reveal_strlit("=>");
    reveal_strlit(" => ");
    let none = Seq::<char>::empty();
    let gap = seq![' '];
    assert(!has_arrow(p.0)) by {
        if has_arrow(p.0) {
            let i = choose|i: int|
                0 <= i < p.0.len() - 1 && #[trigger] p.0[i] == '=' && p.0[i + 1] == '>';
            assert(p.0.subrange(i, i + 2) =~= "=>"@);
            assert(occurs_at(p.0, "=>"@, i));
        }
    }
    a_rule_is_read_from_its_line(p.0, p.1, none, gap, gap, none);
    assert(none + (p.0 + gap + "=>"@ + gap + p.1) + none =~= rule_line(p));
    let line = rule_line(p);
    if breaks(line) {
        let i = choose|i: int| 0 <= i < line.len() && (#[trigger] line[i] == '\r' || line[i] == '\n');
        if i < p.0.len() {
            assert(line[i] == p.0[i]);
            assert(breaks(p.0));
        } else if i < p.0.len() + 4 {
            assert(line[i] == " => "@[i - p.0.len()]);
        } else {
            assert(line[i] == p.1[i - p.0.len() - 4]);
            assert(breaks(p.1));
        }
    }
}

} // verus!
