//! A small reactive rule engine: a two-layer fact store, rules that react to
//! named events, and the per-tick loop that matches rules, changes facts and
//! stages the events that rules emit.
//!
//! Events carry no logic, facts carry no behaviour: logic lives in rules.

pub mod value;
pub mod database;
pub mod layered;
pub mod event;
pub mod rule;
pub mod matching;
pub mod registry;
pub mod scoped;
pub mod systems;
pub mod expr;
pub mod arith;
pub mod asset;

pub use asset::{
    ActionDispatch, ActionEventKind, FactModificationDef, FactValueDef, FreAsset, LocalFactValue,
    RuleActionDef, RuleConditionDef, RuleDef, RuleEventDef,
};
pub use database::{FactDatabase, FactReader};
pub use event::{FactEvent, FactEventId};
pub use arith::evaluate_expr_to_fact;
pub use expr::{
    compile_expr, evaluate_expr, Answer, BinaryOp, Expr, Operand, Request, Token,
};
pub use layered::LayeredFactDatabase;
pub use registry::RuleRegistry;
pub use rule::{FactModification, Rule, RuleBuilder, RuleCondition, RuleScope};
pub use scoped::LayeredRuleRegistry;
pub use systems::{
    ConditionEvaluator, ConditionEvaluatorTrait, DefaultConditionEvaluator, PendingFactEvents,
    Verdict,
};
pub use value::{FactKey, FactValue};
