use fact_rule_event::{
    FactDatabase, FactEvent, FactModification, FactValue, LayeredFactDatabase,
    LayeredRuleRegistry, Rule, RuleCondition, RuleRegistry, RuleScope,
};

#[test]
fn test_rule_condition_evaluation() {
    let mut db = FactDatabase::new();
    db.set("counter", 5i64.into());
    db.set("flag", true.into());

    assert!(RuleCondition::Equals("counter".to_string(), FactValue::Int(5)).evaluate(&db));
    assert!(RuleCondition::GreaterThan("counter".to_string(), 3).evaluate(&db));
    assert!(RuleCondition::LessThan("counter".to_string(), 10).evaluate(&db));
    assert!(RuleCondition::IsTrue("flag".to_string()).evaluate(&db));
    assert!(RuleCondition::Exists("counter".to_string()).evaluate(&db));
    assert!(RuleCondition::NotExists("missing".to_string()).evaluate(&db));
}

#[test]
fn test_rule_builder() {
    let rule = Rule::builder("test_rule", "test_event")
        .condition(RuleCondition::Equals("counter".to_string(), FactValue::Int(3)))
        .modify(FactModification::Assign("result".to_string(), FactValue::Bool(true)))
        .output("result_event")
        .priority(10)
        .build();

    assert_eq!(rule.id, "test_rule");
    assert_eq!(rule.trigger.0, "test_event");
    assert_eq!(rule.priority, 10);
    assert!(rule.enabled);
}

#[test]
fn test_rule_condition_greater_or_equal() {
    let mut db = FactDatabase::new();
    db.set("value", 5i64.into());

    assert!(RuleCondition::GreaterOrEqual("value".to_string(), 5).evaluate(&db));
    assert!(RuleCondition::GreaterOrEqual("value".to_string(), 4).evaluate(&db));
    assert!(!RuleCondition::GreaterOrEqual("value".to_string(), 6).evaluate(&db));
}

#[test]
fn test_rule_condition_less_or_equal() {
    let mut db = FactDatabase::new();
    db.set("value", 5i64.into());

    assert!(RuleCondition::LessOrEqual("value".to_string(), 5).evaluate(&db));
    assert!(RuleCondition::LessOrEqual("value".to_string(), 6).evaluate(&db));
    assert!(!RuleCondition::LessOrEqual("value".to_string(), 4).evaluate(&db));
}

#[test]
fn test_rule_condition_is_false() {
    let mut db = FactDatabase::new();
    db.set("flag", false.into());

    assert!(RuleCondition::IsFalse("flag".to_string()).evaluate(&db));
    assert!(!RuleCondition::IsTrue("flag".to_string()).evaluate(&db));
}

#[test]
fn test_rule_condition_and() {
    let mut db = FactDatabase::new();
    db.set("a", true.into());
    db.set("b", true.into());
    db.set("c", false.into());

    let cond = RuleCondition::And(vec![
        RuleCondition::IsTrue("a".to_string()),
        RuleCondition::IsTrue("b".to_string()),
    ]);
    assert!(cond.evaluate(&db));

    let cond_false = RuleCondition::And(vec![
        RuleCondition::IsTrue("a".to_string()),
        RuleCondition::IsTrue("c".to_string()),
    ]);
    assert!(!cond_false.evaluate(&db));
}

#[test]
fn test_rule_condition_or() {
    let mut db = FactDatabase::new();
    db.set("a", true.into());
    db.set("b", false.into());

    let cond = RuleCondition::Or(vec![
        RuleCondition::IsTrue("a".to_string()),
        RuleCondition::IsTrue("b".to_string()),
    ]);
    assert!(cond.evaluate(&db));

    let cond_all_false = RuleCondition::Or(vec![
        RuleCondition::IsFalse("a".to_string()),
        RuleCondition::IsTrue("b".to_string()),
    ]);
    assert!(!cond_all_false.evaluate(&db));
}

#[test]
fn test_rule_condition_not() {
    let mut db = FactDatabase::new();
    db.set("flag", false.into());

    let cond = RuleCondition::Not(Box::new(RuleCondition::IsTrue("flag".to_string())));
    assert!(cond.evaluate(&db));

    db.set("flag", true.into());
    assert!(!cond.evaluate(&db));
}

#[test]
fn test_rule_condition_always() {
    let db = FactDatabase::new();
    assert!(RuleCondition::Always.evaluate(&db));
}

#[test]
fn test_fact_modification_set() {
    let mut db = LayeredFactDatabase::new();
    let mod_set = FactModification::Assign("key".to_string(), FactValue::Int(42));
    mod_set.apply(&mut db);
    assert_eq!(db.get_int("key"), Some(42));
}

#[test]
fn test_fact_modification_increment() {
    let mut db = LayeredFactDatabase::new();
    db.set("counter", 10i64.into());
    let mod_inc = FactModification::Increment("counter".to_string(), 5);
    mod_inc.apply(&mut db);
    assert_eq!(db.get_int("counter"), Some(15));
}

#[test]
fn test_fact_modification_remove() {
    let mut db = LayeredFactDatabase::new();
    db.set("to_remove", 100i64.into());
    assert!(db.contains("to_remove"));

    let mod_remove = FactModification::Remove("to_remove".to_string());
    mod_remove.apply(&mut db);
    assert!(!db.contains_local("to_remove"));
}

#[test]
fn test_fact_modification_toggle() {
    let mut db = LayeredFactDatabase::new();
    db.set("flag", false.into());

    let mod_toggle = FactModification::Toggle("flag".to_string());
    mod_toggle.apply(&mut db);
    assert_eq!(db.get_bool("flag"), Some(true));

    mod_toggle.apply(&mut db);
    assert_eq!(db.get_bool("flag"), Some(false));
}

#[test]
fn test_fact_modification_toggle_missing_key() {
    let mut db = LayeredFactDatabase::new();
    let mod_toggle = FactModification::Toggle("missing".to_string());
    mod_toggle.apply(&mut db);
    assert_eq!(db.get_bool("missing"), Some(true));
}

#[test]
fn test_rule_registry_basic() {
    let mut registry = RuleRegistry::new();
    assert!(registry.is_empty());
    assert_eq!(registry.len(), 0);

    let rule = Rule::builder("rule1", "event1").build();
    registry.register(rule);

    assert!(!registry.is_empty());
    assert_eq!(registry.len(), 1);
    assert!(registry.get("rule1").is_some());
    assert!(registry.get("nonexistent").is_none());
}

#[test]
fn test_rule_registry_unregister() {
    let mut registry = RuleRegistry::new();
    let rule = Rule::builder("rule1", "event1").build();
    registry.register(rule);

    let unregistered = registry.unregister("rule1");
    assert!(unregistered.is_some());
    assert!(registry.is_empty());

    let unregistered_none = registry.unregister("nonexistent");
    assert!(unregistered_none.is_none());
}

#[test]
fn test_rule_registry_set_enabled() {
    let mut registry = RuleRegistry::new();
    let rule = Rule::builder("rule1", "event1").build();
    registry.register(rule);

    assert!(registry.get("rule1").unwrap().enabled);

    registry.set_enabled("rule1", false);
    assert!(!registry.get("rule1").unwrap().enabled);

    registry.set_enabled("rule1", true);
    assert!(registry.get("rule1").unwrap().enabled);
}

#[test]
fn test_rule_registry_get_matching_rules() {
    let mut registry = RuleRegistry::new();

    let rule1 = Rule::builder("rule1", "event_a").priority(10).build();
    let rule2 = Rule::builder("rule2", "event_a").priority(5).build();
    let rule3 = Rule::builder("rule3", "event_b").priority(20).build();

    registry.register(rule1);
    registry.register(rule2);
    registry.register(rule3);

    let event_a = FactEvent::new("event_a");
    let matching = registry.get_matching_rules(&event_a);

    assert_eq!(matching.len(), 2);
    assert_eq!(matching[0].id, "rule1");
    assert_eq!(matching[1].id, "rule2");
}

#[test]
fn test_rule_registry_iter() {
    let mut registry = RuleRegistry::new();
    registry.register(Rule::builder("r1", "e1").build());
    registry.register(Rule::builder("r2", "e2").build());
    registry.register(Rule::builder("r3", "e3").build());

    let count = registry.iter().len();
    assert_eq!(count, 3);
}

#[test]
fn test_rule_builder_enabled_false() {
    let rule = Rule::builder("disabled_rule", "event").enabled(false).build();

    assert!(!rule.enabled);
}

#[test]
fn test_rule_matches_disabled() {
    let mut registry = RuleRegistry::new();
    let rule = Rule::builder("rule1", "event_a").enabled(false).build();
    registry.register(rule);

    let event_a = FactEvent::new("event_a");
    let matching = registry.get_matching_rules(&event_a);

    assert!(matching.is_empty());
}

fn ids(groups: &Vec<Vec<&Rule>>) -> Vec<Vec<String>> {
    groups.iter().map(|g| g.iter().map(|r| r.id.clone()).collect()).collect()
}

#[test]
fn builder_starts_from_the_defaults() {
    let rule = Rule::builder("r", "e").build();
    assert_eq!(rule.scope, RuleScope::Local);
    assert_eq!(RuleScope::default(), RuleScope::Local);
    assert!(rule.enabled);
    assert!(rule.consume_event);
    assert_eq!(rule.priority, 0);
    assert!(rule.condition_expressions.is_empty());
    assert!(rule.modifications.is_empty());
    assert!(rule.outputs.is_empty());
    let rule = Rule::builder("r", "e")
        .scope(RuleScope::Global)
        .condition_expr("$a > 0")
        .condition_expr("$b > 0")
        .output("x")
        .output("y")
        .consume_event(false)
        .build();
    assert_eq!(rule.scope, RuleScope::Global);
    assert_eq!(rule.condition_expressions, vec!["$a > 0".to_string(), "$b > 0".to_string()]);
    assert_eq!(rule.outputs.iter().map(|o| o.0.clone()).collect::<Vec<_>>(), vec!["x", "y"]);
    assert!(!rule.consume_event);
}

#[test]
fn groups_come_by_priority_highest_first() {
    let mut registry = RuleRegistry::new();
    registry.register(Rule::builder("low", "e").priority(5).build());
    registry.register(Rule::builder("high", "e").priority(10).build());
    let groups = registry.get_matching_rules_grouped(&FactEvent::new("e"));
    assert_eq!(ids(&groups), vec![vec!["high".to_string()], vec!["low".to_string()]]);
    let flat = registry.get_matching_rules(&FactEvent::new("e"));
    assert_eq!(flat[0].id, "high");
}

#[test]
fn within_a_group_fewer_conditions_come_first() {
    let mut registry = RuleRegistry::new();
    registry.register(Rule::builder("two", "e").condition_expr("1").condition_expr("2").build());
    registry.register(Rule::builder("none_a", "e").build());
    registry.register(Rule::builder("one", "e").condition_expr("1").build());
    registry.register(Rule::builder("none_b", "e").build());
    registry.register(Rule::builder("negative", "e").priority(-1).build());
    let groups = registry.get_matching_rules_grouped(&FactEvent::new("e"));
    assert_eq!(
        ids(&groups),
        vec![
            vec!["none_a".to_string(), "none_b".to_string(), "one".to_string(), "two".to_string()],
            vec!["negative".to_string()],
        ]
    );
}

#[test]
fn disabled_rules_match_nothing() {
    let mut registry = RuleRegistry::new();
    registry.register(Rule::builder("off", "e").priority(100).enabled(false).build());
    registry.register(Rule::builder("on", "e").build());
    let groups = registry.get_matching_rules_grouped(&FactEvent::new("e"));
    assert_eq!(ids(&groups), vec![vec!["on".to_string()]]);
    registry.set_enabled("on", false);
    assert!(registry.get_matching_rules_grouped(&FactEvent::new("e")).is_empty());
    registry.set_enabled("unknown", true);
    assert_eq!(registry.len(), 2);
}

#[test]
fn registering_a_name_again_replaces_the_rule() {
    let mut registry = RuleRegistry::new();
    registry.register(Rule::builder("r", "e").priority(1).build());
    registry.register(Rule::builder("s", "e").priority(1).build());
    registry.register(Rule::builder("r", "e").priority(7).build());
    assert_eq!(registry.len(), 2);
    assert_eq!(registry.get("r").unwrap().priority, 7);
    let order: Vec<&str> = registry.iter().iter().map(|r| r.id.as_str()).collect();
    assert_eq!(order, vec!["r", "s"]);
    registry.clear();
    assert!(registry.is_empty());
}

#[test]
fn trigger_must_match_exactly() {
    let mut registry = RuleRegistry::new();
    registry.register(Rule::builder("r", "Event").build());
    assert!(registry.get_matching_rules(&FactEvent::new("event")).is_empty());
    assert_eq!(registry.get_matching_rules(&FactEvent::new("Event")).len(), 1);
    let rule = Rule::builder("r", "e").build();
    assert!(rule.matches_event(&FactEvent::new("e")));
    assert!(!rule.matches_event(&FactEvent::new("f")));
}

#[test]
fn check_condition_reads_the_layers() {
    let mut db = LayeredFactDatabase::new();
    db.set_global("n", 1i64.into());
    let rule = Rule::builder("r", "e")
        .condition(RuleCondition::Equals("n".to_string(), FactValue::Int(2)))
        .build();
    assert!(!rule.check_condition(&db));
    db.set_local("n", 2i64.into());
    assert!(rule.check_condition(&db));
    let float_rule = Rule::builder("r", "e")
        .condition(RuleCondition::Equals("n".to_string(), FactValue::Float(2.0f64.to_bits())))
        .build();
    assert!(!float_rule.check_condition(&db));
}

#[test]
fn empty_lists_of_conditions() {
    let db = FactDatabase::new();
    assert!(RuleCondition::And(vec![]).evaluate(&db));
    assert!(!RuleCondition::Or(vec![]).evaluate(&db));
    assert!(!RuleCondition::IsFalse("missing".to_string()).evaluate(&db));
    assert!(!RuleCondition::IsTrue("missing".to_string()).evaluate(&db));
    assert!(!RuleCondition::GreaterThan("missing".to_string(), -1).evaluate(&db));
}

#[test]
fn scoped_registry_merges_the_scopes() {
    let mut registry = LayeredRuleRegistry::new();
    assert!(registry.is_empty());
    registry.register(Rule::builder("g", "e").scope(RuleScope::Global).priority(1).build());
    registry.register(Rule::builder("l", "e").priority(2).build());
    registry.register_view_rule(7, Rule::builder("v", "e").scope(RuleScope::View).priority(3).build());
    registry.register_view_rule(9, Rule::builder("w", "e").scope(RuleScope::View).priority(1).build());
    assert_eq!(registry.len(), 4);
    assert!(!registry.is_empty());
    let groups = registry.get_matching_rules_grouped(&FactEvent::new("e"));
    assert_eq!(
        ids(&groups),
        vec![vec!["v".to_string()], vec!["l".to_string()], vec!["g".to_string(), "w".to_string()]]
    );
    let flat: Vec<&str> =
        registry.get_matching_rules(&FactEvent::new("e")).iter().map(|r| r.id.as_str()).collect();
    assert_eq!(flat, vec!["v", "l", "g", "w"]);
    assert_eq!(registry.get("w").unwrap().priority, 1);
    assert!(registry.get("x").is_none());
    assert_eq!(registry.global_iter().len(), 1);
    assert_eq!(registry.local_iter().len(), 1);
    let handles: Vec<u64> = registry.view_iter().iter().map(|(h, _)| *h).collect();
    assert_eq!(handles, vec![7, 9]);
    assert_eq!(registry.iter().len(), 4);
}

#[test]
fn clearing_scopes_is_independent() {
    let mut registry = LayeredRuleRegistry::new();
    registry.register(Rule::builder("g", "e").scope(RuleScope::Global).build());
    registry.register(Rule::builder("l", "e").build());
    registry.register_view_rule(7, Rule::builder("v", "e").build());
    registry.clear_local();
    assert_eq!(registry.len(), 2);
    registry.clear_view(8);
    assert_eq!(registry.len(), 2);
    registry.clear_view(7);
    assert_eq!(registry.len(), 1);
    registry.clear_view(7);
    assert_eq!(registry.len(), 1);
    assert!(registry.get("g").is_some());
}

#[test]
fn view_rule_without_handle_goes_to_local() {
    let mut registry = LayeredRuleRegistry::new();
    registry.register(Rule::builder("v", "e").scope(RuleScope::View).build());
    assert_eq!(registry.local_iter().len(), 1);
    assert_eq!(registry.view_iter().len(), 0);
    assert_eq!(registry.local_iter()[0].scope, RuleScope::View);
    registry.clear_local();
    assert!(registry.is_empty());
}
