//! The rule registry: rules by name, and the lookup of the rules that answer
//! an event.

use vstd::prelude::*;
use crate::event::FactEvent;
use crate::matching::{
    candidates, goes_before, group_views, grouped, in_order, lemma_placed_at, matching_groups,
    matching_rules, ref_views, rule_views, flattened,
};
use crate::rule::{Rule, RuleData};

verus! {

/// Whether some rule of the list has this name.
pub open spec fn has_id(rules: Seq<RuleData>, id: Seq<char>) -> bool {
    exists|i: int| 0 <= i < rules.len() && rules[i].id == id
}

/// The position of a rule with this name.
pub open spec fn id_index(rules: Seq<RuleData>, id: Seq<char>) -> int {
    choose|i: int| 0 <= i < rules.len() && rules[i].id == id
}

/// No two rules of the list share a name.
pub open spec fn distinct_ids(rules: Seq<RuleData>) -> bool {
    forall|i: int, j: int| 0 <= i < j < rules.len() ==> rules[i].id != rules[j].id
}

/// The list after a rule is registered: the rule takes the place of the one
/// with its name, or the end of the list where no rule has its name.
pub open spec fn registered(rules: Seq<RuleData>, rule: RuleData) -> Seq<RuleData> {
    if has_id(rules, rule.id) {
        rules.update(id_index(rules, rule.id), rule)
    } else {
        rules.push(rule)
    }
}

/// The list after the rule with this name is enabled or disabled.
pub open spec fn with_enabled(rules: Seq<RuleData>, id: Seq<char>, enabled: bool) -> Seq<
    RuleData,
> {
    if has_id(rules, id) {
        let i = id_index(rules, id);
        rules.update(i, RuleData { enabled, ..rules[i] })
    } else {
        rules
    }
}

/// With distinct names, a rule is found at its own position.
pub proof fn lemma_id_index(rules: Seq<RuleData>, i: int)
    requires
        distinct_ids(rules),
        0 <= i < rules.len(),
    ensures
        has_id(rules, rules[i].id),
        id_index(rules, rules[i].id) == i,
{
    let j = id_index(rules, rules[i].id);
    assert(0 <= j < rules.len() && rules[j].id == rules[i].id);
    if j < i {
        assert(rules[j].id != rules[i].id);
    } else if i < j {
        assert(rules[i].id != rules[j].id);
    }
}

/// Whether `a` is tried strictly before `b`.
pub fn rule_goes_before(a: &Rule, b: &Rule) -> (r: bool)
    ensures
        r == goes_before(a@, b@),
{
    a.priority > b.priority || (a.priority == b.priority && a.condition_expressions.len()
        < b.condition_expressions.len())
}

/// Adds to `out` the rules of `rules` that are candidates for the event.
pub fn collect_candidates<'a>(rules: &'a Vec<Rule>, event: &FactEvent, out: &mut Vec<&'a Rule>)
    ensures
        ref_views(final(out)@) == ref_views(old(out)@) + candidates(
            rule_views(rules@),
            event.id@,
        ),
{
    let mut i: usize = 0;
    assert(rule_views(rules@).take(0) =~= Seq::<RuleData>::empty());
    assert(ref_views(out@) =~= ref_views(old(out)@) + Seq::<RuleData>::empty());
    while i < rules.len()
        invariant
            i <= rules.len(),
            ref_views(out@) == ref_views(old(out)@) + candidates(
                rule_views(rules@).take(i as int),
                event.id@,
            ),
        decreases rules.len() - i,
    {
        let ghost before = ref_views(out@);
        let ghost prefix = rule_views(rules@).take(i + 1);
        assert(prefix.drop_last() =~= rule_views(rules@).take(i as int));
        assert(prefix.last() == rules[i as int]@);
        if rules[i].matches_event(event) {
            out.push(&rules[i]);
            assert(ref_views(out@) =~= before.push(rules[i as int]@));
            assert(before.push(rules[i as int]@) =~= ref_views(old(out)@) + candidates(
                prefix,
                event.id@,
            ));
        }
        i += 1;
    }
    assert(rule_views(rules@).take(i as int) =~= rule_views(rules@));
}

/// The rules in the order in which they are tried.
pub fn sort_candidates<'a>(list: &Vec<&'a Rule>) -> (r: Vec<&'a Rule>)
    ensures
        ref_views(r@) == in_order(ref_views(list@)),
{
    let mut sorted: Vec<&'a Rule> = Vec::new();
    let mut i: usize = 0;
    assert(ref_views(list@).take(0) =~= Seq::<RuleData>::empty());
    assert(ref_views(sorted@) =~= Seq::<RuleData>::empty());
    while i < list.len()
        invariant
            i <= list.len(),
            ref_views(sorted@) == in_order(ref_views(list@).take(i as int)),
        decreases list.len() - i,
    {
        let rule: &'a Rule = list[i];
        let ghost before = ref_views(sorted@);
        let ghost prefix = ref_views(list@).take(i + 1);
        assert(prefix.drop_last() =~= ref_views(list@).take(i as int));
        assert(prefix.last() == rule@);
        let mut p: usize = sorted.len();
        while p > 0 && rule_goes_before(rule, sorted[p - 1])
            invariant
                p <= sorted.len(),
                ref_views(sorted@) == before,
                forall|k: int| p <= k < sorted.len() ==> goes_before(rule@, before[k]),
            decreases p,
        {
            p -= 1;
        }
        proof {
            let q = lemma_placed_at(before, rule@);
            if q < p {
                assert(goes_before(rule@, before[p - 1]));
            }
            if p < q {
                assert(goes_before(rule@, before[q - 1]));
            }
        }
        sorted.insert(p, rule);
        assert(ref_views(sorted@) =~= before.insert(p as int, rule@));
        i += 1;
    }
    assert(ref_views(list@).take(i as int) =~= ref_views(list@));
    sorted
}

/// An ordered list cut into groups of one priority each.
pub fn group_by_priority<'a>(sorted: &Vec<&'a Rule>) -> (r: Vec<Vec<&'a Rule>>)
    ensures
        group_views(r@) == grouped(ref_views(sorted@)),
{
    let mut groups: Vec<Vec<&'a Rule>> = Vec::new();
    let mut current: Vec<&'a Rule> = Vec::new();
    let mut i: usize = 0;
    assert(ref_views(sorted@).take(0) =~= Seq::<RuleData>::empty());
    assert(group_views(groups@) =~= Seq::<Seq<RuleData>>::empty());
    while i < sorted.len()
        invariant
            i <= sorted.len(),
            i == 0 ==> current.len() == 0 && groups.len() == 0,
            i > 0 ==> current.len() > 0 && group_views(groups@).push(ref_views(current@))
                == grouped(ref_views(sorted@).take(i as int)),
        decreases sorted.len() - i,
    {
        let rule: &'a Rule = sorted[i];
        let ghost prefix = ref_views(sorted@).take(i + 1);
        let ghost done = group_views(groups@);
        let ghost open = ref_views(current@);
        assert(prefix.drop_last() =~= ref_views(sorted@).take(i as int));
        assert(prefix.last() == rule@);
        if current.len() > 0 && current[current.len() - 1].priority != rule.priority {
            groups.push(current);
            current = Vec::new();
            assert(group_views(groups@) =~= done.push(open));
        }
        let ghost kept = ref_views(current@);
        current.push(rule);
        assert(ref_views(current@) =~= kept.push(rule@));
        proof {
            if i > 0 {
                let joined = done.push(open);
                assert(joined.last() == open);
                assert(joined.drop_last() =~= done);
                assert(open.last() == open[open.len() - 1]);
            } else {
                assert(grouped(prefix.drop_last()) =~= Seq::<Seq<RuleData>>::empty());
                assert(kept =~= Seq::<RuleData>::empty());
                assert(kept.push(rule@) =~= seq![rule@]);
            }
            if kept.len() == 0 {
                assert(kept.push(rule@) =~= seq![rule@]);
            }
        }
        i += 1;
    }
    assert(ref_views(sorted@).take(i as int) =~= ref_views(sorted@));
    if current.len() > 0 {
        let ghost done = group_views(groups@);
        let ghost open = ref_views(current@);
        groups.push(current);
        assert(group_views(groups@) =~= done.push(open));
    } else {
        assert(grouped(ref_views(sorted@)) =~= Seq::<Seq<RuleData>>::empty());
    }
    groups
}

/// The rules of the groups, laid end to end.
pub fn flatten_groups<'a>(groups: &Vec<Vec<&'a Rule>>) -> (r: Vec<&'a Rule>)
    ensures
        ref_views(r@) == flattened(group_views(groups@)),
{
    let mut out: Vec<&'a Rule> = Vec::new();
    let mut g: usize = 0;
    assert(group_views(groups@).take(0) =~= Seq::<Seq<RuleData>>::empty());
    assert(ref_views(out@) =~= Seq::<RuleData>::empty());
    while g < groups.len()
        invariant
            g <= groups.len(),
            ref_views(out@) == flattened(group_views(groups@).take(g as int)),
        decreases groups.len() - g,
    {
        let ghost done = ref_views(out@);
        let ghost prefix = group_views(groups@).take(g + 1);
        assert(prefix.drop_last() =~= group_views(groups@).take(g as int));
        assert(prefix.last() == ref_views(groups[g as int]@));
        let group = &groups[g];
        let mut j: usize = 0;
        assert(ref_views(group@).take(0) =~= Seq::<RuleData>::empty());
        assert(done + Seq::<RuleData>::empty() =~= done);
        while j < group.len()
            invariant
                j <= group.len(),
                ref_views(out@) == done + ref_views(group@).take(j as int),
            decreases group.len() - j,
        {
            let ghost so_far = ref_views(out@);
            out.push(group[j]);
            assert(ref_views(out@) =~= so_far.push(group[j as int]@));
            assert(ref_views(group@).take(j + 1) =~= ref_views(group@).take(j as int).push(
                group[j as int]@,
            ));
            assert(done + ref_views(group@).take(j + 1) =~= so_far.push(group[j as int]@));
            j += 1;
        }
        assert(ref_views(group@).take(j as int) =~= ref_views(group@));
        g += 1;
    }
    assert(group_views(groups@).take(g as int) =~= group_views(groups@));
    out
}

/// A set of rules, each under its own name. The rules keep the order in
/// which their names were first registered.
#[derive(Debug)]
pub struct RuleRegistry {
    rules: Vec<Rule>,
}

impl View for RuleRegistry {
    type V = Seq<RuleData>;

    closed spec fn view(&self) -> Seq<RuleData> {
        rule_views(self.rules@)
    }
}

impl RuleRegistry {
    #[verifier::type_invariant]
    spec fn inv(&self) -> bool {
        distinct_ids(rule_views(self.rules@))
    }

    /// An empty registry.
    pub fn new() -> (r: RuleRegistry)
        ensures
            r@ == Seq::<RuleData>::empty(),
    {
        let r = RuleRegistry { rules: Vec::new() };
        assert(r@ =~= Seq::<RuleData>::empty());
        r
    }

    /// The position of the rule with this name.
    fn find(&self, id: &str) -> (r: Option<usize>)
        ensures
            distinct_ids(self@),
            match r {
                Some(i) => i < self@.len() && self@[i as int].id == id@ && has_id(self@, id@)
                    && id_index(self@, id@) == i,
                None => !has_id(self@, id@),
            },
    {
        proof {
            use_type_invariant(self);
        }
        let mut i: usize = 0;
        while i < self.rules.len()
            invariant
                i <= self.rules.len(),
                distinct_ids(self@),
                forall|j: int| 0 <= j < i ==> self@[j].id != id@,
            decreases self.rules.len() - i,
        {
            if *self.rules[i].id.as_str() == *id {
                proof {
                    lemma_id_index(self@, i as int);
                }
                return Some(i);
            }
            i += 1;
        }
        None
    }

    /// Moves the rules out and leaves the registry empty.
    fn take_rules(&mut self) -> (r: Vec<Rule>)
        ensures
            rule_views(r@) == old(self)@,
            distinct_ids(rule_views(r@)),
    {
        proof {
            use_type_invariant(&*self);
        }
        let mut owned = RuleRegistry::new();
        core::mem::swap(self, &mut owned);
        let RuleRegistry { rules } = owned;
        rules
    }

    /// Registers a rule under its name. A rule that was registered under
    /// that name is replaced, without notice.
    pub fn register(&mut self, rule: Rule)
        ensures
            final(self)@ == registered(old(self)@, rule@),
            distinct_ids(final(self)@),
    {
        let found = self.find(rule.id.as_str());
        let mut rules = self.take_rules();
        let ghost before = rule_views(rules@);
        match found {
            Some(i) => {
                rules[i] = rule;
                assert(rule_views(rules@) =~= before.update(i as int, rule@));
            },
            None => {
                rules.push(rule);
                assert(rule_views(rules@) =~= before.push(rule@));
            },
        }
        proof {
            let after = rule_views(rules@);
            assert forall|a: int, b: int| 0 <= a < b < after.len() implies after[a].id
                != after[b].id by {
                if a < before.len() && b < before.len() {
                    assert(before[a].id != before[b].id);
                }
            }
        }
        *self = RuleRegistry { rules };
    }

    /// Takes the rule with this name out and returns it.
    pub fn unregister(&mut self, rule_id: &str) -> (r: Option<Rule>)
        ensures
            distinct_ids(old(self)@),
            distinct_ids(final(self)@),
            match r {
                Some(rule) => has_id(old(self)@, rule_id@) && rule@ == old(self)@[id_index(
                    old(self)@,
                    rule_id@,
                )] && final(self)@ == old(self)@.remove(id_index(old(self)@, rule_id@)),
                None => !has_id(old(self)@, rule_id@) && final(self)@ == old(self)@,
            },
    {
        let found = self.find(rule_id);
        let mut rules = self.take_rules();
        let ghost before = rule_views(rules@);
        let out = match found {
            Some(i) => {
                let rule = rules.remove(i);
                assert(rule_views(rules@) =~= before.remove(i as int));
                Some(rule)
            },
            None => None,
        };
        proof {
            let after = rule_views(rules@);
            assert forall|a: int, b: int| 0 <= a < b < after.len() implies after[a].id
                != after[b].id by {
                if found.is_some() {
                    let i = found.unwrap() as int;
                    let a0 = if a < i { a } else { a + 1 };
                    let b0 = if b < i { b } else { b + 1 };
                    assert(after[a] == before[a0] && after[b] == before[b0]);
                }
            }
        }
        *self = RuleRegistry { rules };
        out
    }

    /// The rule with this name.
    pub fn get(&self, rule_id: &str) -> (r: Option<&Rule>)
        ensures
            distinct_ids(self@),
            match r {
                Some(rule) => has_id(self@, rule_id@) && rule@ == self@[id_index(self@, rule_id@)],
                None => !has_id(self@, rule_id@),
            },
    {
        match self.find(rule_id) {
            Some(i) => Some(&self.rules[i]),
            None => None,
        }
    }

    /// Enables or disables the rule with this name. Nothing changes where
    /// no rule has the name.
    pub fn set_enabled(&mut self, rule_id: &str, enabled: bool)
        ensures
            final(self)@ == with_enabled(old(self)@, rule_id@, enabled),
            distinct_ids(final(self)@),
    {
        let found = self.find(rule_id);
        let mut rules = self.take_rules();
        let ghost before = rule_views(rules@);
        match found {
            Some(i) => {
                rules[i].enabled = enabled;
                assert(rule_views(rules@) =~= before.update(
                    i as int,
                    RuleData { enabled, ..before[i as int] },
                ));
            },
            None => {},
        }
        proof {
            let after = rule_views(rules@);
            assert forall|a: int, b: int| 0 <= a < b < after.len() implies after[a].id
                != after[b].id by {
                assert(before[a].id != before[b].id);
            }
        }
        *self = RuleRegistry { rules };
    }

    /// The number of rules.
    pub fn len(&self) -> (r: usize)
        ensures
            r == self@.len(),
    {
        self.rules.len()
    }

    /// Whether the registry holds no rule.
    pub fn is_empty(&self) -> (r: bool)
        ensures
            r == (self@.len() == 0),
    {
        self.rules.len() == 0
    }

    /// Takes every rule out.
    pub fn clear(&mut self)
        ensures
            final(self)@ == Seq::<RuleData>::empty(),
    {
        *self = RuleRegistry::new();
    }

    /// The rules that answer the event, in groups: the enabled rules with
    /// the event as trigger, the group of the highest priority first, and
    /// within a group the rules with the fewest condition expressions first.
    pub fn get_matching_rules_grouped(&self, event: &FactEvent) -> (r: Vec<Vec<&Rule>>)
        ensures
            group_views(r@) == matching_groups(self@, event.id@),
    {
        let mut found: Vec<&Rule> = Vec::new();
        assert(ref_views(found@) =~= Seq::<RuleData>::empty());
        collect_candidates(&self.rules, event, &mut found);
        assert(ref_views(found@) =~= candidates(self@, event.id@));
        let sorted = sort_candidates(&found);
        group_by_priority(&sorted)
    }

    /// The rules that answer the event, in the order in which they are
    /// tried.
    pub fn get_matching_rules(&self, event: &FactEvent) -> (r: Vec<&Rule>)
        ensures
            ref_views(r@) == matching_rules(self@, event.id@),
    {
        let mut found: Vec<&Rule> = Vec::new();
        assert(ref_views(found@) =~= Seq::<RuleData>::empty());
        collect_candidates(&self.rules, event, &mut found);
        assert(ref_views(found@) =~= candidates(self@, event.id@));
        sort_candidates(&found)
    }

    /// Adds to `out` the rules that are candidates for the event, in the
    /// order of the registry.
    pub fn collect_matching<'a>(&'a self, event: &FactEvent, out: &mut Vec<&'a Rule>)
        ensures
            ref_views(final(out)@) == ref_views(old(out)@) + candidates(self@, event.id@),
    {
        collect_candidates(&self.rules, event, out);
    }

    /// Adds every rule to `out`, in the order of the registry.
    pub fn collect_all<'a>(&'a self, out: &mut Vec<&'a Rule>)
        ensures
            ref_views(final(out)@) == ref_views(old(out)@) + self@,
    {
        let mut i: usize = 0;
        assert(ref_views(out@) =~= ref_views(old(out)@) + self@.take(0));
        while i < self.rules.len()
            invariant
                i <= self.rules.len(),
                ref_views(out@) == ref_views(old(out)@) + self@.take(i as int),
            decreases self.rules.len() - i,
        {
            let ghost before = ref_views(out@);
            out.push(&self.rules[i]);
            assert(ref_views(out@) =~= before.push(self.rules[i as int]@));
            assert(before.push(self.rules[i as int]@) =~= ref_views(old(out)@) + self@.take(
                i + 1,
            ));
            i += 1;
        }
        assert(self@.take(i as int) =~= self@);
    }

    /// Every rule, in the order of the registry.
    pub fn iter(&self) -> (r: Vec<&Rule>)
        ensures
            ref_views(r@) == self@,
            distinct_ids(self@),
    {
        proof {
            use_type_invariant(self);
        }
        let mut out: Vec<&Rule> = Vec::new();
        let mut i: usize = 0;
        while i < self.rules.len()
            invariant
                i <= self.rules.len(),
                out.len() == i,
                forall|j: int| 0 <= j < i ==> out[j]@ == self.rules[j]@,
            decreases self.rules.len() - i,
        {
            out.push(&self.rules[i]);
            i += 1;
        }
        assert(ref_views(out@) =~= self@);
        out
    }
}

impl Default for RuleRegistry {
    fn default() -> (r: RuleRegistry)
        ensures
            r@ == Seq::<RuleData>::empty(),
    {
        RuleRegistry::new()
    }
}

} // verus!
