use fact_rule_event::asset::{dispatch_action, generate_rule_id};
use fact_rule_event::{
    ActionDispatch, ActionEventKind, FactModification, FactModificationDef, FactValue,
    FactValueDef, FreAsset, LocalFactValue, RuleActionDef, RuleCondition, RuleConditionDef,
    RuleDef, RuleEventDef, RuleRegistry, RuleScope,
};

fn rule_def(event: RuleEventDef) -> RuleDef {
    RuleDef {
        id: String::new(),
        event,
        conditions: Vec::new(),
        condition: RuleConditionDef::Always,
        actions: Vec::new(),
        modifications: Vec::new(),
        outputs: Vec::new(),
        enabled: true,
        priority: 0,
    }
}

#[test]
fn test_rule_def_serialization_legacy() {
    let asset = FreAsset {
        facts: vec![
            ("counter".to_string(), FactValueDef::Int(0)),
            ("enabled".to_string(), FactValueDef::Bool(true)),
        ],
        rules: vec![RuleDef {
            id: "test_rule".to_string(),
            condition: RuleConditionDef::Equals {
                key: "counter".to_string(),
                value: FactValueDef::Int(3),
            },
            modifications: vec![
                FactModificationDef::Assign {
                    key: "triggered".to_string(),
                    value: FactValueDef::Bool(true),
                },
                FactModificationDef::Increment { key: "counter".to_string(), amount: 1 },
            ],
            outputs: vec!["result_event".to_string()],
            priority: 10,
            ..rule_def(RuleEventDef::Event("test_event".to_string()))
        }],
    };
    assert_eq!(asset.get_facts().len(), 2);
    assert_eq!(asset.rules.len(), 1);
    assert_eq!(asset.rules[0].id, "test_rule");
    assert_eq!(asset.rules[0].event.to_event_id(), "test_event");
    assert_eq!(asset.rules[0].priority, 10);
}

#[test]
fn test_rule_def_serialization_new_format() {
    let asset = FreAsset {
        facts: Vec::new(),
        rules: vec![
            RuleDef {
                conditions: vec!["$selection > 0".to_string()],
                actions: vec![
                    RuleActionDef::SetLocalFact(
                        "selection".to_string(),
                        LocalFactValue::Expr("$selection - 1".to_string()),
                    ),
                    RuleActionDef::PlaySound("choice".to_string()),
                ],
                ..rule_def(RuleEventDef::ActionEvent {
                    action: "Up".to_string(),
                    kind: ActionEventKind::JustPressed,
                })
            },
            RuleDef {
                conditions: vec!["$depth == 0".to_string()],
                actions: vec![
                    RuleActionDef::SetLocalFact("depth".to_string(), LocalFactValue::Int(1)),
                    RuleActionDef::PlaySoundFullPath("audios/sfx/confirm.wav".to_string()),
                ],
                ..rule_def(RuleEventDef::ActionEvent {
                    action: "Confirm".to_string(),
                    kind: ActionEventKind::JustPressed,
                })
            },
        ],
    };
    assert_eq!(asset.rules.len(), 2);

    assert_eq!(asset.rules[0].event.to_event_id(), "action:Up:just_pressed");
    assert_eq!(asset.rules[0].conditions, vec!["$selection > 0"]);

    assert_eq!(asset.rules[1].event.to_event_id(), "action:Confirm:just_pressed");
    assert_eq!(asset.rules[1].conditions, vec!["$depth == 0"]);
}

#[test]
fn test_rule_def_serialization_string_event() {
    let asset = FreAsset {
        facts: Vec::new(),
        rules: vec![RuleDef {
            actions: vec![RuleActionDef::Log { message: "Custom event fired".to_string() }],
            ..rule_def(RuleEventDef::Event("custom_event".to_string()))
        }],
    };
    assert_eq!(asset.rules.len(), 1);
    assert_eq!(asset.rules[0].event.to_event_id(), "custom_event");
}

#[test]
fn test_condition_conversion() {
    let def = RuleConditionDef::And(vec![
        RuleConditionDef::GreaterThan { key: "health".to_string(), value: 0 },
        RuleConditionDef::IsTrue("alive".to_string()),
    ]);

    let _condition: RuleCondition = def.into();
}

#[test]
fn test_local_fact_value_variants() {
    let asset = FreAsset {
        facts: Vec::new(),
        rules: vec![RuleDef {
            actions: vec![
                RuleActionDef::SetLocalFact("int_val".to_string(), LocalFactValue::Int(42)),
                RuleActionDef::SetLocalFact(
                    "float_val".to_string(),
                    LocalFactValue::Float(3.14f64.to_bits()),
                ),
                RuleActionDef::SetLocalFact("bool_val".to_string(), LocalFactValue::Bool(true)),
                RuleActionDef::SetLocalFact(
                    "str_val".to_string(),
                    LocalFactValue::String("hello".to_string()),
                ),
                RuleActionDef::SetLocalFact(
                    "expr_val".to_string(),
                    LocalFactValue::Expr("$x + 1".to_string()),
                ),
            ],
            ..rule_def(RuleEventDef::Event("test".to_string()))
        }],
    };
    assert_eq!(asset.rules[0].actions.len(), 5);
}

#[test]
fn event_ids_of_actions() {
    let kinds = [
        (ActionEventKind::JustPressed, "action:Jump:just_pressed"),
        (ActionEventKind::Pressed, "action:Jump:pressed"),
        (ActionEventKind::JustReleased, "action:Jump:just_released"),
    ];
    for (kind, expected) in kinds {
        let event = RuleEventDef::ActionEvent { action: "Jump".to_string(), kind };
        assert_eq!(event.to_event_id(), expected);
    }
    assert_eq!(RuleEventDef::default().to_event_id(), "");
}

#[test]
fn generated_ids_have_three_digits_or_more() {
    assert_eq!(generate_rule_id("e", 0), "rule_e_000");
    assert_eq!(generate_rule_id("e", 7), "rule_e_007");
    assert_eq!(generate_rule_id("e", 42), "rule_e_042");
    assert_eq!(generate_rule_id("e", 999), "rule_e_999");
    assert_eq!(generate_rule_id("e", 1000), "rule_e_1000");
    assert_eq!(generate_rule_id("e", 12345), "rule_e_12345");
    assert_eq!(generate_rule_id("a:b:c", 10), "rule_a_b_c_010");
    assert_eq!(generate_rule_id("", 100), "rule__100");
    for index in [0usize, 9, 10, 99, 100, 101, 65535, usize::MAX] {
        assert_eq!(generate_rule_id("x:y", index), format!("rule_x_y_{:03}", index));
    }
}

#[test]
fn rule_without_a_name_gets_one() {
    let def = rule_def(RuleEventDef::ActionEvent {
        action: "Up".to_string(),
        kind: ActionEventKind::JustPressed,
    });
    assert_eq!(def.generate_id(3), "rule_action_Up_just_pressed_003");
    assert_eq!(def.to_rule_with_index(3).id, "rule_action_Up_just_pressed_003");
    assert_eq!(def.to_rule().id, "rule_action_Up_just_pressed_000");
    let named = RuleDef { id: "mine".to_string(), ..rule_def(RuleEventDef::Event("e".to_string())) };
    assert_eq!(named.generate_id(3), "mine");
    assert_eq!(named.to_rule_with_index(3).id, "mine");
}

#[test]
fn definition_becomes_a_rule() {
    let def = RuleDef {
        id: "r".to_string(),
        conditions: vec!["$a > 0".to_string()],
        condition: RuleConditionDef::Not(Box::new(RuleConditionDef::Exists("x".to_string()))),
        modifications: vec![
            FactModificationDef::Assign {
                key: "k".to_string(),
                value: FactValueDef::StringList(vec!["a".to_string()]),
            },
            FactModificationDef::Remove("gone".to_string()),
            FactModificationDef::Toggle("t".to_string()),
        ],
        outputs: vec!["o1".to_string(), "o2".to_string()],
        enabled: false,
        priority: -4,
        ..rule_def(RuleEventDef::Event("e".to_string()))
    };
    let rule = def.to_rule_with_index(0);
    assert_eq!(rule.id, "r");
    assert_eq!(rule.trigger.0, "e");
    assert_eq!(rule.scope, RuleScope::Local);
    assert!(rule.consume_event);
    assert!(!rule.enabled);
    assert_eq!(rule.priority, -4);
    assert_eq!(rule.condition_expressions, vec!["$a > 0"]);
    assert_eq!(rule.outputs.iter().map(|o| o.0.as_str()).collect::<Vec<_>>(), vec!["o1", "o2"]);
    assert_eq!(rule.modifications.len(), 3);
    assert!(matches!(
        &rule.modifications[0],
        FactModification::Assign(k, FactValue::StringList(v)) if k == "k" && v == &vec!["a".to_string()]
    ));
    assert!(matches!(&rule.modifications[1], FactModification::Remove(k) if k == "gone"));
    assert!(matches!(&rule.modifications[2], FactModification::Toggle(k) if k == "t"));
    assert!(matches!(&rule.condition, RuleCondition::Not(inner)
        if matches!(&**inner, RuleCondition::Exists(k) if k == "x")));
}

#[test]
fn values_convert_variant_by_variant() {
    assert_eq!(FactValue::from(FactValueDef::Int(3)), FactValue::Int(3));
    assert_eq!(
        FactValue::from(FactValueDef::Float(2.5f64.to_bits())),
        FactValue::Float(2.5f64.to_bits())
    );
    assert_eq!(FactValue::from(FactValueDef::Bool(true)), FactValue::Bool(true));
    assert_eq!(
        FactValue::from(FactValueDef::String("s".to_string())),
        FactValue::String("s".to_string())
    );
    assert_eq!(FactValueDef::IntList(vec![1, 2]).to_value(), FactValue::IntList(vec![1, 2]));
    assert_eq!(
        FactValueDef::StringList(vec!["a".to_string()]).to_value(),
        FactValue::StringList(vec!["a".to_string()])
    );
    let modification: FactModification =
        FactModificationDef::Increment { key: "k".to_string(), amount: 2 }.into();
    assert!(matches!(modification, FactModification::Increment(k, 2) if k == "k"));
}

#[test]
fn asset_registers_its_rules_in_order() {
    let asset = FreAsset {
        facts: Vec::new(),
        rules: vec![
            rule_def(RuleEventDef::Event("e".to_string())),
            rule_def(RuleEventDef::Event("e".to_string())),
            RuleDef { id: "named".to_string(), ..rule_def(RuleEventDef::Event("f".to_string())) },
        ],
    };
    let mut registry = RuleRegistry::new();
    asset.register_rules(&mut registry);
    let ids: Vec<&str> = registry.iter().iter().map(|r| r.id.as_str()).collect();
    assert_eq!(ids, vec!["rule_e_000", "rule_e_001", "named"]);
    assert_eq!(asset.get_rule_defs().len(), 3);
}

#[test]
fn actions_go_to_their_handler_or_a_built_in() {
    let log = RuleActionDef::Log { message: "m".to_string() };
    let emit = RuleActionDef::EmitEvent("e".to_string());
    let sound = RuleActionDef::PlaySound("s".to_string());
    let custom = RuleActionDef::Custom {
        action_type: "Shake".to_string(),
        params: vec![("amount".to_string(), "3".to_string())],
    };
    assert_eq!(log.action_type(), "Log");
    assert_eq!(emit.action_type(), "EmitEvent");
    assert_eq!(sound.action_type(), "PlaySound");
    assert_eq!(custom.action_type(), "Shake");
    assert_eq!(RuleActionDef::CloseView.action_type(), "CloseView");
    assert_eq!(RuleActionDef::SwitchState("s".to_string()).action_type(), "SwitchState");
    assert_eq!(RuleActionDef::PlaySoundFullPath("p".to_string()).action_type(), "PlaySoundFullPath");
    assert_eq!(
        RuleActionDef::SpawnEntity { template: "t".to_string() }.action_type(),
        "SpawnEntity"
    );
    assert_eq!(
        RuleActionDef::SetLocalFact("k".to_string(), LocalFactValue::Bool(true)).action_type(),
        "SetLocalFact"
    );
    assert_eq!(
        RuleActionDef::SetResource {
            resource: "r".to_string(),
            field: "f".to_string(),
            value: FactValueDef::Int(1)
        }
        .action_type(),
        "SetResource"
    );
    assert_eq!(dispatch_action(&log, true), ActionDispatch::Handler);
    assert_eq!(dispatch_action(&log, false), ActionDispatch::LogMessage);
    assert_eq!(dispatch_action(&emit, false), ActionDispatch::NoteEvent);
    assert_eq!(dispatch_action(&sound, false), ActionDispatch::Unhandled);
    assert_eq!(dispatch_action(&custom, false), ActionDispatch::Unhandled);
    assert_eq!(dispatch_action(&custom, true), ActionDispatch::Handler);
}
