//! Which rules answer an event, and in what order: the candidates are the
//! enabled rules that the event triggers; they are grouped by priority, the
//! highest first, and within a group ordered by the number of their
//! condition expressions, the fewest first, rules with equally many in the
//! order in which they were registered.

use vstd::prelude::*;
use crate::rule::{Rule, RuleData};

verus! {

/// The rules of a list, as mathematics.
pub open spec fn rule_views(list: Seq<Rule>) -> Seq<RuleData> {
    Seq::new(list.len(), |i: int| list[i]@)
}

/// The rules behind a list of references, as mathematics.
pub open spec fn ref_views(list: Seq<&Rule>) -> Seq<RuleData> {
    Seq::new(list.len(), |i: int| list[i]@)
}

/// The groups behind a list of lists of references, as mathematics.
pub open spec fn group_views(groups: Seq<Vec<&Rule>>) -> Seq<Seq<RuleData>> {
    Seq::new(groups.len(), |i: int| ref_views(groups[i]@))
}

/// The candidates for an event: the enabled rules with this trigger, in the
/// order of the list.
pub open spec fn candidates(rules: Seq<RuleData>, event_id: Seq<char>) -> Seq<RuleData>
    decreases rules.len(),
{
    if rules.len() == 0 {
        Seq::empty()
    } else if rules.last().matches(event_id) {
        candidates(rules.drop_last(), event_id).push(rules.last())
    } else {
        candidates(rules.drop_last(), event_id)
    }
}

/// Whether `a` is tried strictly before `b`: it has the higher priority, or
/// the same priority and fewer condition expressions.
pub open spec fn goes_before(a: RuleData, b: RuleData) -> bool {
    a.priority > b.priority || (a.priority == b.priority && a.condition_expressions.len()
        < b.condition_expressions.len())
}

/// An ordered list with one more rule: the rule stands behind every rule
/// that it does not go before.
pub open spec fn placed(sorted: Seq<RuleData>, rule: RuleData) -> Seq<RuleData>
    decreases sorted.len(),
{
    if sorted.len() == 0 {
        seq![rule]
    } else if goes_before(rule, sorted.last()) {
        placed(sorted.drop_last(), rule).push(sorted.last())
    } else {
        sorted.push(rule)
    }
}

/// The rules in the order in which they are tried; rules that neither go
/// before the other keep the order of the list.
pub open spec fn in_order(rules: Seq<RuleData>) -> Seq<RuleData>
    decreases rules.len(),
{
    if rules.len() == 0 {
        Seq::empty()
    } else {
        placed(in_order(rules.drop_last()), rules.last())
    }
}

/// An ordered list cut into groups of one priority each.
pub open spec fn grouped(sorted: Seq<RuleData>) -> Seq<Seq<RuleData>>
    decreases sorted.len(),
{
    if sorted.len() == 0 {
        Seq::empty()
    } else {
        let before = grouped(sorted.drop_last());
        if before.len() > 0 && before.last().len() > 0 && before.last().last().priority
            == sorted.last().priority {
            before.drop_last().push(before.last().push(sorted.last()))
        } else {
            before.push(seq![sorted.last()])
        }
    }
}

/// The groups of rules that answer an event, in the order in which they are
/// tried.
pub open spec fn matching_groups(rules: Seq<RuleData>, event_id: Seq<char>) -> Seq<
    Seq<RuleData>,
> {
    grouped(in_order(candidates(rules, event_id)))
}

/// The groups laid end to end.
pub open spec fn flattened(groups: Seq<Seq<RuleData>>) -> Seq<RuleData>
    decreases groups.len(),
{
    if groups.len() == 0 {
        Seq::empty()
    } else {
        flattened(groups.drop_last()) + groups.last()
    }
}

/// The rules that answer an event, in the order in which they are tried.
pub open spec fn matching_rules(rules: Seq<RuleData>, event_id: Seq<char>) -> Seq<RuleData> {
    in_order(candidates(rules, event_id))
}

/// Whether a list is in the order in which rules are tried: no rule goes
/// before one that stands earlier.
pub open spec fn is_ordered(list: Seq<RuleData>) -> bool {
    forall|i: int, j: int| 0 <= i < j < list.len() ==> !goes_before(list[j], list[i])
}

/// Going before is transitive, and so is not going before.
pub proof fn lemma_order_transitive(a: RuleData, b: RuleData, c: RuleData)
    ensures
        goes_before(a, b) && goes_before(b, c) ==> goes_before(a, c),
        !goes_before(b, a) && !goes_before(c, b) ==> !goes_before(c, a),
{
}

/// Placing a rule puts it at one position of the list and leaves the rest
/// as it was.
pub proof fn lemma_placed_at(sorted: Seq<RuleData>, rule: RuleData) -> (p: int)
    ensures
        0 <= p <= sorted.len(),
        placed(sorted, rule) == sorted.insert(p, rule),
        forall|k: int| p <= k < sorted.len() ==> goes_before(rule, sorted[k]),
        p > 0 ==> !goes_before(rule, sorted[p - 1]),
    decreases sorted.len(),
{
    if sorted.len() == 0 {
        assert(seq![rule] =~= sorted.insert(0, rule));
        0
    } else if goes_before(rule, sorted.last()) {
        let front = sorted.drop_last();
        let p = lemma_placed_at(front, rule);
        assert(front.insert(p, rule).push(sorted.last()) =~= sorted.insert(p, rule));
        assert forall|k: int| p <= k < sorted.len() implies goes_before(rule, sorted[k]) by {
            if k < front.len() {
                assert(sorted[k] == front[k]);
            }
        }
        assert(p > 0 ==> sorted[p - 1] == front[p - 1]);
        p
    } else {
        assert(sorted.push(rule) =~= sorted.insert(sorted.len() as int, rule));
        sorted.len() as int
    }
}

/// Placing a rule into an ordered list gives an ordered list.
pub proof fn lemma_placed_ordered(sorted: Seq<RuleData>, rule: RuleData)
    requires
        is_ordered(sorted),
    ensures
        is_ordered(placed(sorted, rule)),
{
    let p = lemma_placed_at(sorted, rule);
    let out = sorted.insert(p, rule);
    assert forall|i: int, j: int| 0 <= i < j < out.len() implies !goes_before(out[j], out[i]) by {
        if j == p {
            // out[j] is the rule; out[i] stands before position p
            assert(out[i] == sorted[i]);
            if i < p - 1 {
                lemma_order_transitive(sorted[i], sorted[p - 1], rule);
            }
        } else if i == p {
            assert(out[j] == sorted[j - 1]);
        } else {
            let i0 = if i < p { i } else { i - 1 };
            let j0 = if j < p { j } else { j - 1 };
            assert(out[i] == sorted[i0] && out[j] == sorted[j0]);
        }
    }
}

/// The order in which rules are tried is an order: no rule goes before one
/// that stands earlier.
pub proof fn lemma_in_order_ordered(rules: Seq<RuleData>)
    ensures
        is_ordered(in_order(rules)),
    decreases rules.len(),
{
    if rules.len() > 0 {
        lemma_in_order_ordered(rules.drop_last());
        lemma_placed_ordered(in_order(rules.drop_last()), rules.last());
    }
}

/// Ordering neither adds a rule nor loses one.
pub proof fn lemma_in_order_same_rules(rules: Seq<RuleData>)
    ensures
        in_order(rules).to_multiset() == rules.to_multiset(),
        in_order(rules).len() == rules.len(),
    decreases rules.len(),
{
    broadcast use vstd::seq_lib::group_to_multiset_ensures;

    if rules.len() == 0 {
        assert(in_order(rules) =~= rules);
    } else {
        let front = rules.drop_last();
        lemma_in_order_same_rules(front);
        let p = lemma_placed_at(in_order(front), rules.last());
        vstd::seq_lib::to_multiset_insert(in_order(front), p, rules.last());
        assert(rules =~= front.push(rules.last()));
        assert(front.push(rules.last()).to_multiset() == front.to_multiset().insert(rules.last()));
    }
}

/// Every candidate matches the event, and every rule that matches is a
/// candidate.
pub proof fn lemma_candidates(rules: Seq<RuleData>, event_id: Seq<char>)
    ensures
        forall|i: int|
            0 <= i < candidates(rules, event_id).len() ==> (#[trigger] candidates(
                rules,
                event_id,
            )[i]).matches(event_id) && rules.contains(candidates(rules, event_id)[i]),
        forall|i: int|
            0 <= i < rules.len() && (#[trigger] rules[i]).matches(event_id) ==> candidates(
                rules,
                event_id,
            ).contains(rules[i]),
    decreases rules.len(),
{
    if rules.len() > 0 {
        let front = rules.drop_last();
        lemma_candidates(front, event_id);
        let c = candidates(rules, event_id);
        let cf = candidates(front, event_id);
        assert forall|i: int| 0 <= i < c.len() implies (#[trigger] c[i]).matches(event_id)
            && rules.contains(c[i]) by {
            if i < cf.len() {
                assert(c[i] == cf[i]);
                assert(front.contains(cf[i]));
                let k = choose|k: int| 0 <= k < front.len() && front[k] == cf[i];
                assert(rules[k] == cf[i]);
            } else {
                assert(c[i] == rules.last());
                assert(rules[rules.len() - 1] == rules.last());
            }
        }
        assert forall|i: int| 0 <= i < rules.len() && (#[trigger] rules[i]).matches(
            event_id,
        ) implies c.contains(rules[i]) by {
            if i < front.len() {
                assert(front[i] == rules[i]);
                assert(cf.contains(front[i]));
                let k = choose|k: int| 0 <= k < cf.len() && cf[k] == front[i];
                assert(c[k] == rules[i]);
            } else {
                assert(c[c.len() - 1] == rules[i]);
            }
        }
    }
}

} // verus!

verus! {

/// What cutting an ordered list into groups gives: no group is empty, a
/// group has one priority, an earlier group has the higher priority, each
/// group is in order, every rule of a group is a rule of the list, and the
/// groups laid end to end are the list.
pub proof fn lemma_grouped(sorted: Seq<RuleData>)
    requires
        is_ordered(sorted),
    ensures
        sorted.len() == 0 ==> grouped(sorted).len() == 0,
        sorted.len() > 0 ==> grouped(sorted).len() > 0 && grouped(sorted).last().len() > 0
            && grouped(sorted).last().last() == sorted.last(),
        forall|g: int| 0 <= g < grouped(sorted).len() ==> (#[trigger] grouped(sorted)[g]).len() > 0,
        forall|g: int, j: int|
            0 <= g < grouped(sorted).len() && 0 <= j < grouped(sorted)[g].len() ==> (
            #[trigger] grouped(sorted)[g][j]).priority == grouped(sorted)[g][0].priority,
        forall|g: int, h: int|
            0 <= g < h < grouped(sorted).len() ==> (#[trigger] grouped(sorted)[g])[0].priority > (
            #[trigger] grouped(sorted)[h])[0].priority,
        forall|g: int| 0 <= g < grouped(sorted).len() ==> is_ordered(#[trigger] grouped(sorted)[g]),
        forall|g: int, j: int|
            0 <= g < grouped(sorted).len() && 0 <= j < grouped(sorted)[g].len()
                ==> sorted.contains(#[trigger] grouped(sorted)[g][j]),
        flattened(grouped(sorted)) == sorted,
    decreases sorted.len(),
{
    if sorted.len() == 0 {
        assert(flattened(grouped(sorted)) =~= sorted);
    } else {
        let front = sorted.drop_last();
        let x = sorted.last();
        assert forall|i: int, j: int| 0 <= i < j < front.len() implies !goes_before(
            front[j],
            front[i],
        ) by {
            assert(front[i] == sorted[i] && front[j] == sorted[j]);
        }
        lemma_grouped(front);
        let before = grouped(front);
        let after = grouped(sorted);
        assert(sorted =~= front.push(x));
        assert forall|e: RuleData| front.contains(e) implies sorted.contains(e) by {
            let k = choose|k: int| 0 <= k < front.len() && front[k] == e;
            assert(sorted[k] == e);
        }
        assert(sorted[sorted.len() - 1] == x);
        if before.len() > 0 && before.last().len() > 0 && before.last().last().priority
            == x.priority {
            let open = before.last();
            let closed = before.drop_last();
            assert(after == closed.push(open.push(x)));
            assert(after.last() == open.push(x));
            assert(after.drop_last() =~= closed);
            assert(flattened(before) == flattened(closed) + open);
            assert(flattened(after) =~= sorted);
            assert(front.last() == sorted[sorted.len() - 2]);
            assert(!goes_before(x, front.last()));
            assert forall|g: int| 0 <= g < after.len() implies is_ordered(
                #[trigger] after[g],
            ) by {
                if g < closed.len() {
                    assert(after[g] == before[g]);
                } else {
                    let grown = open.push(x);
                    assert(is_ordered(before[before.len() - 1]));
                    assert forall|i: int, j: int| 0 <= i < j < grown.len() implies !goes_before(
                        grown[j],
                        grown[i],
                    ) by {
                        if j < open.len() {
                            assert(grown[i] == open[i] && grown[j] == open[j]);
                        } else {
                            assert(grown[i] == open[i]);
                            assert(before[before.len() - 1][i].priority == before[before.len()
                                - 1][0].priority);
                            assert(before[before.len() - 1][open.len() - 1].priority
                                == before[before.len() - 1][0].priority);
                            if i < open.len() - 1 {
                                assert(!goes_before(open[open.len() - 1], open[i]));
                            }
                        }
                    }
                }
            }
            assert forall|g: int, j: int| 0 <= g < after.len() && 0 <= j < after[g].len() implies (
            #[trigger] after[g][j]).priority == after[g][0].priority && sorted.contains(
                after[g][j],
            ) by {
                if g < closed.len() {
                    assert(after[g] == before[g]);
                    assert(front.contains(before[g][j]));
                } else {
                    assert(before[before.len() - 1][0].priority == open[0].priority);
                    if j < open.len() {
                        assert(after[g][j] == before[before.len() - 1][j]);
                        assert(front.contains(before[before.len() - 1][j]));
                    }
                    assert(before[before.len() - 1][open.len() - 1].priority
                        == before[before.len() - 1][0].priority);
                }
            }
            assert forall|g: int, h: int| 0 <= g < h < after.len() implies (#[trigger] after[g])[0].priority
                > (#[trigger] after[h])[0].priority by {
                assert(after[g] == before[g]);
                if h < closed.len() {
                    assert(after[h] == before[h]);
                } else {
                    assert(after[h][0] == before[h][0]);
                }
            }
            assert forall|g: int| 0 <= g < after.len() implies (#[trigger] after[g]).len()
                > 0 by {
                if g < closed.len() {
                    assert(after[g] == before[g]);
                }
            }
        } else {
            assert(after == before.push(seq![x]));
            assert(after.last() == seq![x]);
            assert(after.drop_last() =~= before);
            assert(flattened(after) =~= sorted);
            assert forall|g: int| 0 <= g < after.len() implies is_ordered(#[trigger] after[g])
                && after[g].len() > 0 by {
                if g < before.len() {
                    assert(after[g] == before[g]);
                }
            }
            assert forall|g: int, j: int| 0 <= g < after.len() && 0 <= j < after[g].len() implies (
            #[trigger] after[g][j]).priority == after[g][0].priority && sorted.contains(
                after[g][j],
            ) by {
                if g < before.len() {
                    assert(after[g] == before[g]);
                    assert(front.contains(before[g][j]));
                }
            }
            assert forall|g: int, h: int| 0 <= g < h < after.len() implies (#[trigger] after[g])[0].priority
                > (#[trigger] after[h])[0].priority by {
                assert(after[g] == before[g]);
                if h < before.len() {
                    assert(after[h] == before[h]);
                } else {
                    // the rule that closes the list has a lower priority
                    // than the last rule before it
                    let tail = before[before.len() - 1];
                    assert(tail.last() == front.last());
                    assert(front.last() == sorted[sorted.len() - 2]);
                    assert(!goes_before(x, front.last()));
                    assert(tail[tail.len() - 1].priority == tail[0].priority);
                    if g < before.len() - 1 {
                        assert(before[g][0].priority > before[before.len() - 1][0].priority);
                    }
                }
            }
        }
    }
}

/// The groups that answer an event hold enabled rules of the registry with
/// the event as trigger, and nothing else: a disabled rule is in no group,
/// whatever its trigger and conditions.
pub proof fn law_groups_hold_candidates_only(rules: Seq<RuleData>, event_id: Seq<char>)
    ensures
        forall|g: int, j: int|
            0 <= g < matching_groups(rules, event_id).len() && 0 <= j < matching_groups(
                rules,
                event_id,
            )[g].len() ==> {
                let rule = #[trigger] matching_groups(rules, event_id)[g][j];
                rule.enabled && rule.trigger == event_id && rules.contains(rule)
            },
{
    broadcast use vstd::seq_lib::group_to_multiset_ensures;

    let found = candidates(rules, event_id);
    let sorted = in_order(found);
    lemma_candidates(rules, event_id);
    lemma_in_order_same_rules(found);
    lemma_in_order_ordered(found);
    lemma_grouped(sorted);
    let groups = grouped(sorted);
    assert forall|g: int, j: int| 0 <= g < groups.len() && 0 <= j < groups[g].len() implies {
        let rule = #[trigger] groups[g][j];
        rule.enabled && rule.trigger == event_id && rules.contains(rule)
    } by {
        let rule = groups[g][j];
        assert(sorted.contains(rule));
        assert(sorted.to_multiset().count(rule) > 0);
        assert(found.to_multiset().count(rule) > 0);
        assert(found.contains(rule));
        let k = choose|k: int| 0 <= k < found.len() && found[k] == rule;
        assert(found[k].matches(event_id));
    }
}

/// Every enabled rule with the event as trigger is in the groups that
/// answer the event, and the groups hold as many rules as there are
/// candidates.
pub proof fn law_groups_hold_every_candidate(rules: Seq<RuleData>, event_id: Seq<char>)
    ensures
        flattened(matching_groups(rules, event_id)) == matching_rules(rules, event_id),
        matching_rules(rules, event_id).len() == candidates(rules, event_id).len(),
        forall|i: int|
            0 <= i < rules.len() && (#[trigger] rules[i]).matches(event_id) ==> matching_rules(
                rules,
                event_id,
            ).contains(rules[i]),
{
    broadcast use vstd::seq_lib::group_to_multiset_ensures;

    let found = candidates(rules, event_id);
    let sorted = in_order(found);
    lemma_candidates(rules, event_id);
    lemma_in_order_same_rules(found);
    lemma_in_order_ordered(found);
    lemma_grouped(sorted);
    assert forall|i: int| 0 <= i < rules.len() && (#[trigger] rules[i]).matches(
        event_id,
    ) implies sorted.contains(rules[i]) by {
        assert(found.contains(rules[i]));
        assert(found.to_multiset().count(rules[i]) > 0);
        assert(sorted.to_multiset().count(rules[i]) > 0);
    }
}

/// The groups that answer an event come in the order of their priorities,
/// the highest first: no group is empty, the rules of a group share one
/// priority, a group that stands earlier has the strictly higher priority,
/// and within a group no rule has fewer condition expressions than one that
/// stands before it.
pub proof fn law_groups_descend(rules: Seq<RuleData>, event_id: Seq<char>)
    ensures
        forall|g: int|
            0 <= g < matching_groups(rules, event_id).len() ==> (#[trigger] matching_groups(
                rules,
                event_id,
            )[g]).len() > 0,
        forall|g: int, j: int|
            0 <= g < matching_groups(rules, event_id).len() && 0 <= j < matching_groups(
                rules,
                event_id,
            )[g].len() ==> (#[trigger] matching_groups(rules, event_id)[g][j]).priority
                == matching_groups(rules, event_id)[g][0].priority,
        forall|g: int, h: int|
            0 <= g < h < matching_groups(rules, event_id).len() ==> (#[trigger] matching_groups(
                rules,
                event_id,
            )[g])[0].priority > (#[trigger] matching_groups(rules, event_id)[h])[0].priority,
        forall|g: int, j: int, k: int|
            0 <= g < matching_groups(rules, event_id).len() && 0 <= j < k < matching_groups(
                rules,
                event_id,
            )[g].len() ==> (#[trigger] matching_groups(
                rules,
                event_id,
            )[g][j]).condition_expressions.len() <= (#[trigger] matching_groups(
                rules,
                event_id,
            )[g][k]).condition_expressions.len(),
        is_ordered(matching_rules(rules, event_id)),
{
    let found = candidates(rules, event_id);
    let sorted = in_order(found);
    lemma_in_order_ordered(found);
    lemma_grouped(sorted);
    let groups = grouped(sorted);
    assert forall|g: int, j: int, k: int|
        0 <= g < groups.len() && 0 <= j < k < groups[g].len() implies (
    #[trigger] groups[g][j]).condition_expressions.len() <= (
    #[trigger] groups[g][k]).condition_expressions.len() by {
        assert(is_ordered(groups[g]));
        assert(!goes_before(groups[g][k], groups[g][j]));
        assert(groups[g][j].priority == groups[g][0].priority);
        assert(groups[g][k].priority == groups[g][0].priority);
    }
}

} // verus!

verus! {

/// The position that `placed` gives to a rule: behind the last rule of the
/// list that it does not go before.
pub open spec fn placed_at(sorted: Seq<RuleData>, rule: RuleData) -> int
    decreases sorted.len(),
{
    if sorted.len() == 0 {
        0
    } else if goes_before(rule, sorted.last()) {
        placed_at(sorted.drop_last(), rule)
    } else {
        sorted.len() as int
    }
}

/// For each place in the order in which rules are tried, the position that
/// the rule at that place has in the list.
pub open spec fn order_of(rules: Seq<RuleData>) -> Seq<int>
    decreases rules.len(),
{
    if rules.len() == 0 {
        Seq::empty()
    } else {
        let front = rules.drop_last();
        order_of(front).insert(placed_at(in_order(front), rules.last()), rules.len() - 1)
    }
}

/// `placed` inserts the rule at the position that `placed_at` names: every
/// rule behind that position is one that the rule goes before, and the rule
/// just before it is not.
pub proof fn lemma_placed_position(sorted: Seq<RuleData>, rule: RuleData)
    ensures
        0 <= placed_at(sorted, rule) <= sorted.len(),
        placed(sorted, rule) == sorted.insert(placed_at(sorted, rule), rule),
        forall|k: int|
            placed_at(sorted, rule) <= k < sorted.len() ==> goes_before(rule, #[trigger] sorted[k]),
        placed_at(sorted, rule) > 0 ==> !goes_before(rule, sorted[placed_at(sorted, rule) - 1]),
    decreases sorted.len(),
{
    if sorted.len() == 0 {
        assert(seq![rule] =~= sorted.insert(0, rule));
    } else if goes_before(rule, sorted.last()) {
        let front = sorted.drop_last();
        lemma_placed_position(front, rule);
        let p = placed_at(front, rule);
        assert(front.insert(p, rule).push(sorted.last()) =~= sorted.insert(p, rule));
        assert forall|k: int| p <= k < sorted.len() implies goes_before(
            rule,
            #[trigger] sorted[k],
        ) by {
            if k < front.len() {
                assert(sorted[k] == front[k]);
            }
        }
        assert(p > 0 ==> sorted[p - 1] == front[p - 1]);
    } else {
        assert(sorted.push(rule) =~= sorted.insert(sorted.len() as int, rule));
    }
}

/// The order in which rules are tried is the list sorted, and sorted
/// stably: each rule of the list is tried once; a rule is tried before
/// another only if the other does not go before it; and of two rules of
/// which neither goes before the other, the one that stands earlier in the
/// list is tried first.
pub proof fn law_order_is_stable(rules: Seq<RuleData>)
    ensures
        order_of(rules).len() == rules.len(),
        in_order(rules).len() == rules.len(),
        forall|k: int|
            0 <= k < rules.len() ==> 0 <= (#[trigger] order_of(rules)[k]) < rules.len()
                && in_order(rules)[k] == rules[order_of(rules)[k]],
        forall|k: int, l: int|
            0 <= k < l < rules.len() ==> (#[trigger] order_of(rules)[k]) != (
            #[trigger] order_of(rules)[l]),
        forall|k: int, l: int|
            0 <= k < l < rules.len() ==> !goes_before(
                #[trigger] in_order(rules)[l],
                #[trigger] in_order(rules)[k],
            ),
        forall|k: int, l: int|
            0 <= k < l < rules.len() && !goes_before(in_order(rules)[k], in_order(rules)[l])
                ==> (#[trigger] order_of(rules)[k]) < (#[trigger] order_of(rules)[l]),
    decreases rules.len(),
{
    lemma_in_order_ordered(rules);
    lemma_in_order_same_rules(rules);
    if rules.len() > 0 {
        let front = rules.drop_last();
        let x = rules.last();
        let n = rules.len() - 1;
        law_order_is_stable(front);
        lemma_in_order_same_rules(front);
        let s0 = in_order(front);
        let o0 = order_of(front);
        lemma_placed_position(s0, x);
        let p = placed_at(s0, x);
        let s = in_order(rules);
        let o = order_of(rules);
        assert(s == s0.insert(p, x));
        assert(o == o0.insert(p, n));
        assert forall|k: int| 0 <= k < rules.len() implies 0 <= (#[trigger] o[k]) < rules.len()
            && s[k] == rules[o[k]] by {
            if k < p {
                assert(o[k] == o0[k] && s[k] == s0[k]);
                assert(front[o0[k]] == rules[o0[k]]);
            } else if k == p {
                assert(o[k] == n && s[k] == x);
            } else {
                assert(o[k] == o0[k - 1] && s[k] == s0[k - 1]);
                assert(front[o0[k - 1]] == rules[o0[k - 1]]);
            }
        }
        assert forall|k: int, l: int| 0 <= k < l < rules.len() implies (#[trigger] o[k]) != (
        #[trigger] o[l]) by {
            let k0 = if k < p { k } else { k - 1 };
            let l0 = if l < p { l } else { l - 1 };
            if k != p && l != p {
                assert(o[k] == o0[k0] && o[l] == o0[l0]);
                assert(o0[k0] != o0[l0]);
            } else if k == p {
                assert(o[l] == o0[l0]);
            } else {
                assert(o[k] == o0[k0]);
            }
        }
        assert forall|k: int, l: int|
            0 <= k < l < rules.len() && !goes_before(s[k], s[l]) implies (#[trigger] o[k]) < (
        #[trigger] o[l]) by {
            let k0 = if k < p { k } else { k - 1 };
            let l0 = if l < p { l } else { l - 1 };
            if k != p && l != p {
                assert(o[k] == o0[k0] && o[l] == o0[l0]);
                assert(s[k] == s0[k0] && s[l] == s0[l0]);
                assert(o0[k0] < o0[l0]);
            } else if k == p {
                // the rule goes before every rule behind its place
                assert(s[l] == s0[l - 1]);
                assert(goes_before(x, s0[l - 1]));
            } else {
                assert(o[k] == o0[k0]);
                assert(o[l] == n);
            }
        }
    }
}

} // verus!
