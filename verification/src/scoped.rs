//! The scoped rule registry: global rules, the rules of the current scene,
//! and the rules of each view, cleared each on its own occasion.

use vstd::prelude::*;
use crate::event::FactEvent;
use crate::matching::{
    candidates, group_views, matching_groups, matching_rules, ref_views,
};
use crate::registry::{
    group_by_priority, has_id, id_index, registered, sort_candidates, RuleRegistry,
};
use crate::rule::{Rule, RuleData, RuleScope};

verus! {

/// The rules of one view, as mathematics.
pub struct ViewLayer {
    pub handle: u64,
    pub rules: Seq<RuleData>,
}

/// The rules of a scoped registry, as mathematics.
pub struct ScopedRules {
    pub global: Seq<RuleData>,
    pub local: Seq<RuleData>,
    /// The views, in the order in which they got their first rule.
    pub views: Seq<ViewLayer>,
}

/// The rules of all the views, one view after the other.
pub open spec fn view_rules(views: Seq<ViewLayer>) -> Seq<RuleData>
    decreases views.len(),
{
    if views.len() == 0 {
        Seq::empty()
    } else {
        view_rules(views.drop_last()) + views.last().rules
    }
}

/// Whether a view with this handle has rules of its own.
pub open spec fn has_view(views: Seq<ViewLayer>, handle: u64) -> bool {
    exists|i: int| 0 <= i < views.len() && views[i].handle == handle
}

/// The position of the view with this handle.
pub open spec fn view_index(views: Seq<ViewLayer>, handle: u64) -> int {
    choose|i: int| 0 <= i < views.len() && views[i].handle == handle
}

/// No two views share a handle.
pub open spec fn distinct_handles(views: Seq<ViewLayer>) -> bool {
    forall|i: int, j: int| 0 <= i < j < views.len() ==> views[i].handle != views[j].handle
}

impl ScopedRules {
    /// Every rule: the global ones, then the local ones, then those of the
    /// views.
    pub open spec fn all_rules(self) -> Seq<RuleData> {
        self.global + self.local + view_rules(self.views)
    }

    /// The registry after a rule is registered by its scope. A rule of view
    /// scope that comes without a handle goes to the local rules.
    pub open spec fn with_rule(self, rule: RuleData) -> ScopedRules {
        match rule.scope {
            RuleScope::Global => ScopedRules { global: registered(self.global, rule), ..self },
            _ => ScopedRules { local: registered(self.local, rule), ..self },
        }
    }

    /// The rule with this name: the global one, else the local one, else
    /// that of the first view that has one.
    pub open spec fn find(self, id: Seq<char>) -> Option<RuleData> {
        if has_id(self.global, id) {
            Some(self.global[id_index(self.global, id)])
        } else if has_id(self.local, id) {
            Some(self.local[id_index(self.local, id)])
        } else {
            find_in_views(self.views, id)
        }
    }
}

/// The rule with this name in the first view that has one.
pub open spec fn find_in_views(views: Seq<ViewLayer>, id: Seq<char>) -> Option<RuleData>
    decreases views.len(),
{
    if views.len() == 0 {
        None
    } else if has_id(views[0].rules, id) {
        Some(views[0].rules[id_index(views[0].rules, id)])
    } else {
        find_in_views(views.skip(1), id)
    }
}

/// The views after a rule is registered for a view. A view without rules
/// gets its own set first, behind the views that have one.
pub open spec fn with_view_rule(views: Seq<ViewLayer>, handle: u64, rule: RuleData) -> Seq<
    ViewLayer,
> {
    if has_view(views, handle) {
        let i = view_index(views, handle);
        views.update(i, ViewLayer { handle, rules: registered(views[i].rules, rule) })
    } else {
        views.push(ViewLayer { handle, rules: seq![rule] })
    }
}

/// The views after a view is released: its rules are gone, and nothing
/// changes where the view had none.
pub open spec fn without_view(views: Seq<ViewLayer>, handle: u64) -> Seq<ViewLayer> {
    if has_view(views, handle) {
        views.remove(view_index(views, handle))
    } else {
        views
    }
}

/// The first position of a rule with this name.
pub open spec fn first_with_id(rules: Seq<RuleData>, id: Seq<char>) -> int {
    choose|i: int|
        0 <= i < rules.len() && rules[i].id == id && forall|j: int|
            0 <= j < i ==> rules[j].id != id
}

/// The candidates of two lists, one after the other, are the candidates of
/// the one followed by those of the other.
pub proof fn lemma_candidates_concat(a: Seq<RuleData>, b: Seq<RuleData>, event_id: Seq<char>)
    ensures
        candidates(a + b, event_id) == candidates(a, event_id) + candidates(b, event_id),
    decreases b.len(),
{
    if b.len() == 0 {
        assert(a + b =~= a);
        assert(candidates(a, event_id) + candidates(b, event_id) =~= candidates(a, event_id));
    } else {
        let whole = a + b;
        assert(whole.drop_last() =~= a + b.drop_last());
        assert(whole.last() == b.last());
        lemma_candidates_concat(a, b.drop_last(), event_id);
        if b.last().matches(event_id) {
            assert((candidates(a, event_id) + candidates(b.drop_last(), event_id)).push(b.last())
                =~= candidates(a, event_id) + candidates(b.drop_last(), event_id).push(
                b.last(),
            ));
        }
    }
}

/// The rules of one view, under the view's handle.
#[derive(Debug)]
pub struct ViewRules {
    handle: u64,
    registry: RuleRegistry,
}

impl View for ViewRules {
    type V = ViewLayer;

    closed spec fn view(&self) -> ViewLayer {
        ViewLayer { handle: self.handle, rules: self.registry@ }
    }
}

impl ViewRules {
    /// The view's handle.
    pub fn handle(&self) -> (r: u64)
        ensures
            r == self@.handle,
    {
        self.handle
    }

    /// The view's rules.
    pub fn registry(&self) -> (r: &RuleRegistry)
        ensures
            r@ == self@.rules,
    {
        &self.registry
    }
}

/// The views of a list, as mathematics.
pub open spec fn layer_views(list: Seq<ViewRules>) -> Seq<ViewLayer> {
    Seq::new(list.len(), |i: int| list[i]@)
}

/// The rules of the views, each view's under its handle.
#[derive(Debug)]
pub struct ViewTable {
    views: Vec<ViewRules>,
}

impl View for ViewTable {
    type V = Seq<ViewLayer>;

    closed spec fn view(&self) -> Seq<ViewLayer> {
        layer_views(self.views@)
    }
}

impl ViewTable {
    #[verifier::type_invariant]
    spec fn inv(&self) -> bool {
        distinct_handles(layer_views(self.views@))
    }

    /// A table without views.
    pub fn new() -> (r: ViewTable)
        ensures
            r@ == Seq::<ViewLayer>::empty(),
    {
        let r = ViewTable { views: Vec::new() };
        assert(r@ =~= Seq::<ViewLayer>::empty());
        r
    }

    /// The position of the view with this handle.
    fn find_view(&self, handle: u64) -> (r: Option<usize>)
        ensures
            distinct_handles(self@),
            match r {
                Some(i) => i < self@.len() && self@[i as int].handle == handle && has_view(
                    self@,
                    handle,
                ) && view_index(self@, handle) == i,
                None => !has_view(self@, handle),
            },
    {
        proof {
            use_type_invariant(self);
        }
        let mut i: usize = 0;
        while i < self.views.len()
            invariant
                i <= self.views.len(),
                distinct_handles(self@),
                forall|j: int| 0 <= j < i ==> self@[j].handle != handle,
            decreases self.views.len() - i,
        {
            if self.views[i].handle == handle {
                proof {
                    let j = view_index(self@, handle);
                    assert(self@[i as int].handle == handle);
                    if j < i {
                        assert(self@[j].handle != self@[i as int].handle);
                    } else if i < j {
                        assert(self@[i as int].handle != self@[j].handle);
                    }
                }
                return Some(i);
            }
            i += 1;
        }
        None
    }

    /// Moves the views out and leaves the table empty.
    fn take_views(&mut self) -> (r: Vec<ViewRules>)
        ensures
            layer_views(r@) == old(self)@,
            distinct_handles(layer_views(r@)),
    {
        proof {
            use_type_invariant(&*self);
        }
        let mut owned = ViewTable::new();
        core::mem::swap(self, &mut owned);
        let ViewTable { views } = owned;
        views
    }

    /// Registers a rule for the view with this handle.
    pub fn register(&mut self, handle: u64, rule: Rule)
        ensures
            final(self)@ == with_view_rule(old(self)@, handle, rule@),
    {
        let found = self.find_view(handle);
        let mut views = self.take_views();
        let ghost before = layer_views(views@);
        match found {
            Some(i) => {
                views[i].registry.register(rule);
                assert(layer_views(views@) =~= before.update(
                    i as int,
                    ViewLayer { handle, rules: registered(before[i as int].rules, rule@) },
                ));
            },
            None => {
                let mut registry = RuleRegistry::new();
                registry.register(rule);
                assert(registry@ =~= seq![rule@]);
                views.push(ViewRules { handle, registry });
                assert(layer_views(views@) =~= before.push(
                    ViewLayer { handle, rules: seq![rule@] },
                ));
            },
        }
        proof {
            let after = layer_views(views@);
            assert forall|a: int, b: int| 0 <= a < b < after.len() implies after[a].handle
                != after[b].handle by {
                if a < before.len() && b < before.len() {
                    assert(before[a].handle != before[b].handle);
                }
            }
        }
        *self = ViewTable { views };
    }

    /// Takes the view with this handle out, with its rules.
    pub fn remove(&mut self, handle: u64)
        ensures
            final(self)@ == without_view(old(self)@, handle),
    {
        let found = self.find_view(handle);
        let mut views = self.take_views();
        let ghost before = layer_views(views@);
        match found {
            Some(i) => {
                let _ = views.remove(i);
                assert(layer_views(views@) =~= before.remove(i as int));
            },
            None => {},
        }
        proof {
            let after = layer_views(views@);
            assert forall|a: int, b: int| 0 <= a < b < after.len() implies after[a].handle
                != after[b].handle by {
                if found.is_some() {
                    let i = found.unwrap() as int;
                    let a0 = if a < i { a } else { a + 1 };
                    let b0 = if b < i { b } else { b + 1 };
                    assert(after[a] == before[a0] && after[b] == before[b0]);
                }
            }
        }
        *self = ViewTable { views };
    }

    /// The number of views.
    pub fn len(&self) -> (r: usize)
        ensures
            r == self@.len(),
    {
        self.views.len()
    }

    /// The view at a position.
    fn at(&self, i: usize) -> (r: &ViewRules)
        requires
            i < self@.len(),
        ensures
            r@ == self@[i as int],
    {
        &self.views[i]
    }
}

/// A rule registry in three scopes: global rules, which stay; local rules,
/// which go when the scene is left; and the rules of each view, which go
/// when the view is released.
#[derive(Debug)]
pub struct LayeredRuleRegistry {
    global: RuleRegistry,
    local: RuleRegistry,
    views: ViewTable,
}

impl View for LayeredRuleRegistry {
    type V = ScopedRules;

    closed spec fn view(&self) -> ScopedRules {
        ScopedRules { global: self.global@, local: self.local@, views: self.views@ }
    }
}

impl LayeredRuleRegistry {
    /// A registry without rules.
    pub fn new() -> (r: LayeredRuleRegistry)
        ensures
            r@.global == Seq::<RuleData>::empty(),
            r@.local == Seq::<RuleData>::empty(),
            r@.views == Seq::<ViewLayer>::empty(),
    {
        LayeredRuleRegistry {
            global: RuleRegistry::new(),
            local: RuleRegistry::new(),
            views: ViewTable::new(),
        }
    }

    /// Registers a rule by its scope: a global rule among the global rules,
    /// a local one among the local rules. A rule of view scope belongs to
    /// `register_view_rule`; one that arrives here is kept, among the local
    /// rules.
    pub fn register(&mut self, rule: Rule)
        ensures
            final(self)@ == old(self)@.with_rule(rule@),
    {
        match rule.scope {
            RuleScope::Global => self.global.register(rule),
            RuleScope::Local => self.local.register(rule),
            RuleScope::View => self.local.register(rule),
        }
    }

    /// Registers a rule for the view with this handle.
    pub fn register_view_rule(&mut self, view_entity: u64, rule: Rule)
        ensures
            final(self)@ == (ScopedRules {
                views: with_view_rule(old(self)@.views, view_entity, rule@),
                ..old(self)@
            }),
    {
        self.views.register(view_entity, rule);
    }

    /// Takes every local rule out; global rules and view rules stay.
    pub fn clear_local(&mut self)
        ensures
            final(self)@ == (ScopedRules { local: Seq::empty(), ..old(self)@ }),
    {
        self.local.clear();
    }

    /// Takes the rules of the view with this handle out. Nothing changes
    /// where the view has none.
    pub fn clear_view(&mut self, view_entity: u64)
        ensures
            final(self)@ == (ScopedRules {
                views: without_view(old(self)@.views, view_entity),
                ..old(self)@
            }),
    {
        self.views.remove(view_entity);
    }

    /// Adds to `out` the candidates for the event from every scope: global
    /// rules, local rules, then the views.
    fn collect<'a>(&'a self, event: &FactEvent, out: &mut Vec<&'a Rule>)
        requires
            old(out).len() == 0,
        ensures
            ref_views(final(out)@) == candidates(self@.all_rules(), event.id@),
    {
        let ghost id = event.id@;
        assert(ref_views(out@) =~= Seq::<RuleData>::empty());
        self.global.collect_matching(event, out);
        self.local.collect_matching(event, out);
        proof {
            lemma_candidates_concat(self@.global, self@.local, id);
            assert(ref_views(out@) =~= candidates(self@.global + self@.local, id));
        }
        let mut i: usize = 0;
        assert(self@.views.take(0) =~= Seq::<ViewLayer>::empty());
        assert(self@.global + self@.local + Seq::<RuleData>::empty() =~= self@.global
            + self@.local);
        while i < self.views.len()
            invariant
                i <= self@.views.len(),
                id == event.id@,
                ref_views(out@) == candidates(
                    self@.global + self@.local + view_rules(self@.views.take(i as int)),
                    id,
                ),
            decreases self@.views.len() - i,
        {
            let ghost so_far = self@.global + self@.local + view_rules(
                self@.views.take(i as int),
            );
            self.views.at(i).registry().collect_matching(event, out);
            proof {
                let next = self@.views.take(i + 1);
                assert(next.drop_last() =~= self@.views.take(i as int));
                assert(next.last() == self@.views[i as int]);
                lemma_candidates_concat(so_far, self@.views[i as int].rules, id);
                assert(so_far + self@.views[i as int].rules =~= self@.global + self@.local
                    + view_rules(next));
            }
            i += 1;
        }
        assert(self@.views.take(i as int) =~= self@.views);
    }

    /// The rules of every scope that answer the event, in groups: the group
    /// of the highest priority first, and within a group the rules with the
    /// fewest condition expressions first.
    pub fn get_matching_rules_grouped(&self, event: &FactEvent) -> (r: Vec<Vec<&Rule>>)
        ensures
            group_views(r@) == matching_groups(self@.all_rules(), event.id@),
    {
        let mut found: Vec<&Rule> = Vec::new();
        self.collect(event, &mut found);
        let sorted = sort_candidates(&found);
        group_by_priority(&sorted)
    }

    /// The rules of every scope that answer the event, in the order in which
    /// they are tried.
    pub fn get_matching_rules(&self, event: &FactEvent) -> (r: Vec<&Rule>)
        ensures
            ref_views(r@) == matching_rules(self@.all_rules(), event.id@),
    {
        let mut found: Vec<&Rule> = Vec::new();
        self.collect(event, &mut found);
        sort_candidates(&found)
    }

    /// The number of rules in all scopes together; `usize::MAX` where there
    /// are more than that.
    pub fn len(&self) -> (r: usize)
        ensures
            r == if self@.all_rules().len() <= usize::MAX {
                self@.all_rules().len()
            } else {
                usize::MAX as nat
            },
    {
        let mut total: usize = self.global.len().saturating_add(self.local.len());
        let mut i: usize = 0;
        assert(self@.views.take(0) =~= Seq::<ViewLayer>::empty());
        while i < self.views.len()
            invariant
                i <= self@.views.len(),
                total == if self@.global.len() + self@.local.len() + view_rules(
                    self@.views.take(i as int),
                ).len() <= usize::MAX {
                    self@.global.len() + self@.local.len() + view_rules(
                        self@.views.take(i as int),
                    ).len()
                } else {
                    usize::MAX as nat
                },
            decreases self@.views.len() - i,
        {
            let ghost next = self@.views.take(i + 1);
            assert(next.drop_last() =~= self@.views.take(i as int));
            assert(next.last() == self@.views[i as int]);
            total = total.saturating_add(self.views.at(i).registry().len());
            i += 1;
        }
        assert(self@.views.take(i as int) =~= self@.views);
        total
    }

    /// Whether no scope holds a rule.
    pub fn is_empty(&self) -> (r: bool)
        ensures
            r == (self@.all_rules().len() == 0),
    {
        if !self.global.is_empty() || !self.local.is_empty() {
            return false;
        }
        let mut i: usize = 0;
        assert(self@.views.take(0) =~= Seq::<ViewLayer>::empty());
        while i < self.views.len()
            invariant
                i <= self@.views.len(),
                view_rules(self@.views.take(i as int)).len() == 0,
            decreases self@.views.len() - i,
        {
            let ghost next = self@.views.take(i + 1);
            assert(next.drop_last() =~= self@.views.take(i as int));
            assert(next.last() == self@.views[i as int]);
            if !self.views.at(i).registry().is_empty() {
                proof {
                    lemma_view_rules_prefix(self@.views, i + 1);
                }
                return false;
            }
            i += 1;
        }
        assert(self@.views.take(i as int) =~= self@.views);
        true
    }

    /// The rule with this name: the global one, else the local one, else
    /// that of the first view that has one.
    pub fn get(&self, rule_id: &str) -> (r: Option<&Rule>)
        ensures
            match self@.find(rule_id@) {
                Some(rule) => r.is_some() && r.unwrap()@ == rule,
                None => r.is_none(),
            },
    {
        if let Some(rule) = self.global.get(rule_id) {
            return Some(rule);
        }
        if let Some(rule) = self.local.get(rule_id) {
            return Some(rule);
        }
        let mut i: usize = 0;
        assert(self@.views.skip(0) =~= self@.views);
        while i < self.views.len()
            invariant
                i <= self@.views.len(),
                !has_id(self@.global, rule_id@),
                !has_id(self@.local, rule_id@),
                find_in_views(self@.views, rule_id@) == find_in_views(
                    self@.views.skip(i as int),
                    rule_id@,
                ),
            decreases self@.views.len() - i,
        {
            assert(self@.views.skip(i as int)[0] == self@.views[i as int]);
            assert(self@.views.skip(i as int).skip(1) =~= self@.views.skip(i + 1));
            if let Some(rule) = self.views.at(i).registry().get(rule_id) {
                return Some(rule);
            }
            i += 1;
        }
        None
    }

    /// The global rules, in the order of their registry.
    pub fn global_iter(&self) -> (r: Vec<&Rule>)
        ensures
            ref_views(r@) == self@.global,
    {
        self.global.iter()
    }

    /// The local rules, in the order of their registry.
    pub fn local_iter(&self) -> (r: Vec<&Rule>)
        ensures
            ref_views(r@) == self@.local,
    {
        self.local.iter()
    }

    /// The views with rules of their own: each handle with its registry.
    pub fn view_iter(&self) -> (r: Vec<(u64, &RuleRegistry)>)
        ensures
            r.len() == self@.views.len(),
            forall|i: int|
                0 <= i < r.len() ==> r[i].0 == self@.views[i].handle && r[i].1@
                    == self@.views[i].rules,
    {
        let mut out: Vec<(u64, &RuleRegistry)> = Vec::new();
        let mut i: usize = 0;
        while i < self.views.len()
            invariant
                i <= self@.views.len(),
                out.len() == i,
                forall|j: int|
                    0 <= j < i ==> out[j].0 == self@.views[j].handle && out[j].1@
                        == self@.views[j].rules,
            decreases self@.views.len() - i,
        {
            let view = self.views.at(i);
            out.push((view.handle(), view.registry()));
            i += 1;
        }
        out
    }

    /// Every rule: the global ones, then the local ones, then those of the
    /// views.
    pub fn iter(&self) -> (r: Vec<&Rule>)
        ensures
            ref_views(r@) == self@.all_rules(),
    {
        let mut out: Vec<&Rule> = Vec::new();
        assert(ref_views(out@) =~= Seq::<RuleData>::empty());
        self.global.collect_all(&mut out);
        self.local.collect_all(&mut out);
        assert(ref_views(out@) =~= self@.global + self@.local);
        let mut i: usize = 0;
        assert(self@.views.take(0) =~= Seq::<ViewLayer>::empty());
        assert(self@.global + self@.local + Seq::<RuleData>::empty() =~= self@.global
            + self@.local);
        while i < self.views.len()
            invariant
                i <= self@.views.len(),
                ref_views(out@) == self@.global + self@.local + view_rules(
                    self@.views.take(i as int),
                ),
            decreases self@.views.len() - i,
        {
            let ghost next = self@.views.take(i + 1);
            assert(next.drop_last() =~= self@.views.take(i as int));
            assert(next.last() == self@.views[i as int]);
            self.views.at(i).registry().collect_all(&mut out);
            assert(ref_views(out@) =~= self@.global + self@.local + view_rules(next));
            i += 1;
        }
        assert(self@.views.take(i as int) =~= self@.views);
        out
    }
}

impl Default for LayeredRuleRegistry {
    fn default() -> (r: LayeredRuleRegistry)
        ensures
            r@.global == Seq::<RuleData>::empty(),
            r@.local == Seq::<RuleData>::empty(),
            r@.views == Seq::<ViewLayer>::empty(),
    {
        LayeredRuleRegistry::new()
    }
}

/// The rules of the first views are among the rules of all the views.
pub proof fn lemma_view_rules_prefix(views: Seq<ViewLayer>, n: int)
    requires
        0 <= n <= views.len(),
    ensures
        view_rules(views.take(n)).len() <= view_rules(views).len(),
    decreases views.len() - n,
{
    if n < views.len() {
        lemma_view_rules_prefix(views, n + 1);
        assert(views.take(n + 1).drop_last() =~= views.take(n));
    } else {
        assert(views.take(n) =~= views);
    }
}

} // verus!
