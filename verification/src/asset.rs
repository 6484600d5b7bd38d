//! Definitions of facts and rules as they stand in a rule file, and how
//! they become the facts and rules of the engine.

use vstd::prelude::*;
use vstd::string::{StrSliceExecFns, StringExecFns};
use crate::event::FactEventId;
use crate::registry::{registered, RuleRegistry};
use crate::rule::{
    condition_views, ConditionData, FactModification, ModData, Rule, RuleCondition, RuleData,
    RuleScope,
};
use crate::value::{copy_ints, copy_strings, texts, FactData, FactValue};

verus! {

/// Appending a character, `String::push`: the string afterwards is the
/// string before with the character at its end.
pub assume_specification[ std::string::String::push ](s: &mut std::string::String, c: char)
    ensures
        final(s)@ == old(s)@.push(c),
;

/// A fact value as a rule file writes it.
#[derive(Debug)]
pub enum FactValueDef {
    Int(i64),
    /// A binary64 number, by its bit pattern.
    Float(u64),
    Bool(bool),
    String(String),
    StringList(Vec<String>),
    IntList(Vec<i64>),
}

impl View for FactValueDef {
    type V = FactData;

    open spec fn view(&self) -> FactData {
        match self {
            FactValueDef::Int(v) => FactData::Int(*v),
            FactValueDef::Float(v) => FactData::Float(*v),
            FactValueDef::Bool(v) => FactData::Bool(*v),
            FactValueDef::String(v) => FactData::Text(v@),
            FactValueDef::StringList(v) => FactData::TextList(texts(v@)),
            FactValueDef::IntList(v) => FactData::IntList(v@),
        }
    }
}

impl FactValueDef {
    /// The fact value that the definition stands for.
    pub fn to_value(&self) -> (r: FactValue)
        ensures
            r@ == self@,
    {
        match self {
            FactValueDef::Int(v) => FactValue::Int(*v),
            FactValueDef::Float(v) => FactValue::Float(*v),
            FactValueDef::Bool(v) => FactValue::Bool(*v),
            FactValueDef::String(v) => FactValue::String(v.clone()),
            FactValueDef::StringList(v) => FactValue::StringList(copy_strings(v)),
            FactValueDef::IntList(v) => FactValue::IntList(copy_ints(v)),
        }
    }
}

impl From<FactValueDef> for FactValue {
    fn from(def: FactValueDef) -> (r: FactValue)
        ensures
            r@ == def@,
    {
        match def {
            FactValueDef::Int(v) => FactValue::Int(v),
            FactValueDef::Float(v) => FactValue::Float(v),
            FactValueDef::Bool(v) => FactValue::Bool(v),
            FactValueDef::String(v) => FactValue::String(v),
            FactValueDef::StringList(v) => FactValue::StringList(v),
            FactValueDef::IntList(v) => FactValue::IntList(v),
        }
    }
}

impl vstd::std_specs::convert::FromSpecImpl<FactValueDef> for FactValue {
    open spec fn obeys_from_spec() -> bool {
        false
    }

    open spec fn from_spec(def: FactValueDef) -> FactValue {
        arbitrary()
    }
}

/// A condition as a rule file writes it.
#[derive(Debug)]
pub enum RuleConditionDef {
    Equals { key: String, value: FactValueDef },
    GreaterThan { key: String, value: i64 },
    LessThan { key: String, value: i64 },
    GreaterOrEqual { key: String, value: i64 },
    LessOrEqual { key: String, value: i64 },
    Exists(String),
    NotExists(String),
    IsTrue(String),
    IsFalse(String),
    And(Vec<RuleConditionDef>),
    Or(Vec<RuleConditionDef>),
    Not(Box<RuleConditionDef>),
    Always,
}

/// The conditions that a list of definitions stands for.
pub open spec fn condition_defs(list: Seq<RuleConditionDef>) -> Seq<ConditionData>
    decreases list,
{
    Seq::new(
        list.len(),
        |i: int|
            if 0 <= i < list.len() {
                list[i].data()
            } else {
                ConditionData::Always
            },
    )
}

impl RuleConditionDef {
    /// The condition that the definition stands for, as mathematics.
    pub open spec fn data(&self) -> ConditionData
        decreases self,
    {
        match self {
            RuleConditionDef::Equals { key, value } => ConditionData::Equals(key@, value@),
            RuleConditionDef::GreaterThan { key, value } => ConditionData::GreaterThan(
                key@,
                *value,
            ),
            RuleConditionDef::LessThan { key, value } => ConditionData::LessThan(key@, *value),
            RuleConditionDef::GreaterOrEqual { key, value } => ConditionData::GreaterOrEqual(
                key@,
                *value,
            ),
            RuleConditionDef::LessOrEqual { key, value } => ConditionData::LessOrEqual(
                key@,
                *value,
            ),
            RuleConditionDef::Exists(key) => ConditionData::Exists(key@),
            RuleConditionDef::NotExists(key) => ConditionData::NotExists(key@),
            RuleConditionDef::IsTrue(key) => ConditionData::IsTrue(key@),
            RuleConditionDef::IsFalse(key) => ConditionData::IsFalse(key@),
            RuleConditionDef::And(list) => ConditionData::And(condition_defs(list@)),
            RuleConditionDef::Or(list) => ConditionData::Or(condition_defs(list@)),
            RuleConditionDef::Not(inner) => ConditionData::Not(Box::new(inner.data())),
            RuleConditionDef::Always => ConditionData::Always,
        }
    }

    /// The condition that the definition stands for.
    pub fn to_condition(&self) -> (r: RuleCondition)
        ensures
            r@ == self@,
        decreases self,
    {
        match self {
            RuleConditionDef::Equals { key, value } => RuleCondition::Equals(
                key.clone(),
                value.to_value(),
            ),
            RuleConditionDef::GreaterThan { key, value } => RuleCondition::GreaterThan(
                key.clone(),
                *value,
            ),
            RuleConditionDef::LessThan { key, value } => RuleCondition::LessThan(
                key.clone(),
                *value,
            ),
            RuleConditionDef::GreaterOrEqual { key, value } => RuleCondition::GreaterOrEqual(
                key.clone(),
                *value,
            ),
            RuleConditionDef::LessOrEqual { key, value } => RuleCondition::LessOrEqual(
                key.clone(),
                *value,
            ),
            RuleConditionDef::Exists(key) => RuleCondition::Exists(key.clone()),
            RuleConditionDef::NotExists(key) => RuleCondition::NotExists(key.clone()),
            RuleConditionDef::IsTrue(key) => RuleCondition::IsTrue(key.clone()),
            RuleConditionDef::IsFalse(key) => RuleCondition::IsFalse(key.clone()),
            RuleConditionDef::And(list) => RuleCondition::And(to_conditions(list)),
            RuleConditionDef::Or(list) => RuleCondition::Or(to_conditions(list)),
            RuleConditionDef::Not(inner) => RuleCondition::Not(Box::new(inner.to_condition())),
            RuleConditionDef::Always => RuleCondition::Always,
        }
    }
}

impl View for RuleConditionDef {
    type V = ConditionData;

    open spec fn view(&self) -> ConditionData {
        self.data()
    }
}

/// The conditions that a list of definitions stands for.
pub fn to_conditions(list: &Vec<RuleConditionDef>) -> (r: Vec<RuleCondition>)
    ensures
        condition_views(r@) == condition_defs(list@),
    decreases list,
{
    let mut out: Vec<RuleCondition> = Vec::new();
    let mut i: usize = 0;
    while i < list.len()
        invariant
            i <= list.len(),
            out.len() == i,
            forall|j: int| 0 <= j < i ==> out[j]@ == list[j]@,
        decreases list.len() - i,
    {
        assert(decreases_to!(*list => list[i as int]));
        out.push(list[i].to_condition());
        i += 1;
    }
    assert(condition_views(out@) =~= condition_defs(list@));
    out
}

impl From<RuleConditionDef> for RuleCondition {
    fn from(def: RuleConditionDef) -> (r: RuleCondition)
        ensures
            r@ == def@,
    {
        def.to_condition()
    }
}

impl vstd::std_specs::convert::FromSpecImpl<RuleConditionDef> for RuleCondition {
    open spec fn obeys_from_spec() -> bool {
        false
    }

    open spec fn from_spec(def: RuleConditionDef) -> RuleCondition {
        arbitrary()
    }
}

/// A modification as a rule file writes it.
#[derive(Debug)]
pub enum FactModificationDef {
    /// Store the value under the key.
    Assign { key: String, value: FactValueDef },
    /// Add the amount to the integer under the key.
    Increment { key: String, amount: i64 },
    /// Take the fact out.
    Remove(String),
    /// Flip the boolean under the key.
    Toggle(String),
}

impl View for FactModificationDef {
    type V = ModData;

    open spec fn view(&self) -> ModData {
        match self {
            FactModificationDef::Assign { key, value } => ModData::Assign(key@, value@),
            FactModificationDef::Increment { key, amount } => ModData::Increment(key@, *amount),
            FactModificationDef::Remove(key) => ModData::Remove(key@),
            FactModificationDef::Toggle(key) => ModData::Toggle(key@),
        }
    }
}

impl FactModificationDef {
    /// The modification that the definition stands for.
    pub fn to_modification(&self) -> (r: FactModification)
        ensures
            r@ == self@,
    {
        match self {
            FactModificationDef::Assign { key, value } => FactModification::Assign(
                key.clone(),
                value.to_value(),
            ),
            FactModificationDef::Increment { key, amount } => FactModification::Increment(
                key.clone(),
                *amount,
            ),
            FactModificationDef::Remove(key) => FactModification::Remove(key.clone()),
            FactModificationDef::Toggle(key) => FactModification::Toggle(key.clone()),
        }
    }
}

impl From<FactModificationDef> for FactModification {
    fn from(def: FactModificationDef) -> (r: FactModification)
        ensures
            r@ == def@,
    {
        def.to_modification()
    }
}

impl vstd::std_specs::convert::FromSpecImpl<FactModificationDef> for FactModification {
    open spec fn obeys_from_spec() -> bool {
        false
    }

    open spec fn from_spec(def: FactModificationDef) -> FactModification {
        arbitrary()
    }
}

/// How an input action is pressed.
#[derive(Debug, Clone, Copy, PartialEq, Eq, Structural)]
pub enum ActionEventKind {
    /// Pressed in this frame.
    JustPressed,
    /// Held down.
    Pressed,
    /// Released in this frame.
    JustReleased,
}

impl ActionEventKind {
    /// The kind as it stands in an event identifier.
    pub open spec fn name(self) -> Seq<char> {
        match self {
            ActionEventKind::JustPressed => "just_pressed"@,
            ActionEventKind::Pressed => "pressed"@,
            ActionEventKind::JustReleased => "just_released"@,
        }
    }
}

/// The event that triggers a rule, as a rule file writes it.
#[derive(Debug)]
pub enum RuleEventDef {
    /// An event by its identifier.
    Event(String),
    /// An input action with the way it is pressed.
    ActionEvent { action: String, kind: ActionEventKind },
}

impl Default for RuleEventDef {
    fn default() -> (r: RuleEventDef)
        ensures
            r.event_id() == Seq::<char>::empty(),
    {
        RuleEventDef::Event(String::new())
    }
}

impl RuleEventDef {
    /// The identifier of the event: the identifier itself, or for an input
    /// action `action:`, the action, `:` and the kind.
    pub open spec fn event_id(&self) -> Seq<char> {
        match self {
            RuleEventDef::Event(id) => id@,
            RuleEventDef::ActionEvent { action, kind } => "action:"@ + action@ + ":"@
                + kind.name(),
        }
    }

    /// The identifier of the event, for matching.
    pub fn to_event_id(&self) -> (r: String)
        ensures
            r@ == self.event_id(),
    {
        match self {
            RuleEventDef::Event(id) => id.clone(),
            RuleEventDef::ActionEvent { action, kind } => {
                let kind_str = match kind {
                    ActionEventKind::JustPressed => "just_pressed",
                    ActionEventKind::Pressed => "pressed",
                    ActionEventKind::JustReleased => "just_released",
                };
                let mut out = String::from_str("action:");
                out.append(action.as_str());
                out.append(":");
                out.append(kind_str);
                out
            },
        }
    }
}

/// The character of a digit.
pub open spec fn digit_of(d: nat) -> char {
    if d == 0 {
        '0'
    } else if d == 1 {
        '1'
    } else if d == 2 {
        '2'
    } else if d == 3 {
        '3'
    } else if d == 4 {
        '4'
    } else if d == 5 {
        '5'
    } else if d == 6 {
        '6'
    } else if d == 7 {
        '7'
    } else if d == 8 {
        '8'
    } else {
        '9'
    }
}

/// A number in decimal digits, without leading zeros.
pub open spec fn decimal(n: nat) -> Seq<char>
    decreases n,
{
    if n < 10 {
        seq![digit_of(n)]
    } else {
        decimal(n / 10).push(digit_of(n % 10))
    }
}

/// A number in decimal digits, with zeros in front up to three digits.
pub open spec fn padded(n: nat) -> Seq<char> {
    if n < 10 {
        seq!['0', '0'] + decimal(n)
    } else if n < 100 {
        seq!['0'] + decimal(n)
    } else {
        decimal(n)
    }
}

/// A text with every `:` replaced by `_`.
pub open spec fn underscored(s: Seq<char>) -> Seq<char> {
    Seq::new(s.len(), |i: int| if s[i] == ':' { '_' } else { s[i] })
}

/// The name that a rule without a name gets: `rule_`, the identifier of
/// its event with `_` for each `:`, `_`, and its index in three digits or
/// more.
pub open spec fn generated_id(event_id: Seq<char>, index: nat) -> Seq<char> {
    "rule_"@ + underscored(event_id) + seq!['_'] + padded(index)
}

/// The character of a digit.
fn digit_char_of(d: usize) -> (r: char)
    requires
        d < 10,
    ensures
        r == digit_of(d as nat),
{
    if d == 0 {
        '0'
    } else if d == 1 {
        '1'
    } else if d == 2 {
        '2'
    } else if d == 3 {
        '3'
    } else if d == 4 {
        '4'
    } else if d == 5 {
        '5'
    } else if d == 6 {
        '6'
    } else if d == 7 {
        '7'
    } else if d == 8 {
        '8'
    } else {
        '9'
    }
}

/// Appends a number in decimal digits.
fn push_decimal(out: &mut String, n: usize)
    ensures
        final(out)@ == old(out)@ + decimal(n as nat),
    decreases n,
{
    if n >= 10 {
        push_decimal(out, n / 10);
    }
    out.push(digit_char_of(n % 10));
    assert(out@ =~= old(out)@ + decimal(n as nat));
}

/// The name of a rule without a name.
pub fn generate_rule_id(event_id: &str, index: usize) -> (r: String)
    ensures
        r@ == generated_id(event_id@, index as nat),
{
    let chars = crate::expr::chars_of(event_id);
    let mut out = String::from_str("rule_");
    let ghost head = out@;
    let mut i: usize = 0;
    assert(out@ =~= head + underscored(event_id@).take(0));
    while i < chars.len()
        invariant
            i <= chars.len(),
            chars@ == event_id@,
            out@ == head + underscored(event_id@).take(i as int),
        decreases chars.len() - i,
    {
        let c = if chars[i] == ':' {
            '_'
        } else {
            chars[i]
        };
        out.push(c);
        assert(out@ =~= head + underscored(event_id@).take(i + 1));
        i += 1;
    }
    assert(underscored(event_id@).take(i as int) =~= underscored(event_id@));
    out.push('_');
    if index < 10 {
        out.push('0');
        out.push('0');
    } else if index < 100 {
        out.push('0');
    }
    let ghost before = out@;
    push_decimal(&mut out, index);
    assert(out@ =~= generated_id(event_id@, index as nat));
    out
}

} // verus!

verus! {

/// The value of a `SetLocalFact` action: a literal, or an expression to
/// evaluate when the action runs.
#[derive(Debug)]
pub enum LocalFactValue {
    Int(i64),
    /// A binary64 number, by its bit pattern.
    Float(u64),
    Bool(bool),
    String(String),
    /// An expression, such as `$selection - 1`.
    Expr(String),
}

/// An action of a rule, as a rule file writes it. Actions are data: the
/// application runs them, by their type.
#[derive(Debug)]
pub enum RuleActionDef {
    /// Write a message to the log.
    Log { message: String },
    /// Set a field of a resource.
    SetResource { resource: String, field: String, value: FactValueDef },
    /// Play a sound, found by its name.
    PlaySound(String),
    /// Play a sound, given by its full path.
    PlaySoundFullPath(String),
    /// Set a local fact of the active view.
    SetLocalFact(String, LocalFactValue),
    /// Close the active view.
    CloseView,
    /// Switch to the state of this name.
    SwitchState(String),
    /// Emit an event.
    EmitEvent(String),
    /// Spawn an entity from a template.
    SpawnEntity { template: String },
    /// An action of the application's own, by the name of its type.
    Custom { action_type: String, params: Vec<(String, String)> },
}

impl RuleActionDef {
    /// The name of the action's type, by which its handler is found: the
    /// name of the variant, or for a custom action the name that it gives.
    pub open spec fn kind_name(&self) -> Seq<char> {
        match self {
            RuleActionDef::Log { .. } => "Log"@,
            RuleActionDef::SetResource { .. } => "SetResource"@,
            RuleActionDef::PlaySound(_) => "PlaySound"@,
            RuleActionDef::PlaySoundFullPath(_) => "PlaySoundFullPath"@,
            RuleActionDef::SetLocalFact(_, _) => "SetLocalFact"@,
            RuleActionDef::CloseView => "CloseView"@,
            RuleActionDef::SwitchState(_) => "SwitchState"@,
            RuleActionDef::EmitEvent(_) => "EmitEvent"@,
            RuleActionDef::SpawnEntity { .. } => "SpawnEntity"@,
            RuleActionDef::Custom { action_type, .. } => action_type@,
        }
    }

    /// The name of the action's type.
    pub fn action_type(&self) -> (r: &str)
        ensures
            r@ == self.kind_name(),
    {
        match self {
            RuleActionDef::Log { .. } => "Log",
            RuleActionDef::SetResource { .. } => "SetResource",
            RuleActionDef::PlaySound(_) => "PlaySound",
            RuleActionDef::PlaySoundFullPath(_) => "PlaySoundFullPath",
            RuleActionDef::SetLocalFact(_, _) => "SetLocalFact",
            RuleActionDef::CloseView => "CloseView",
            RuleActionDef::SwitchState(_) => "SwitchState",
            RuleActionDef::EmitEvent(_) => "EmitEvent",
            RuleActionDef::SpawnEntity { .. } => "SpawnEntity",
            RuleActionDef::Custom { action_type, .. } => action_type.as_str(),
        }
    }
}

/// What is done with an action.
#[derive(Debug, Clone, Copy, PartialEq, Eq, Structural)]
pub enum ActionDispatch {
    /// The handler registered for the action's type runs it.
    Handler,
    /// No handler: the message of a `Log` action is written to the log.
    LogMessage,
    /// No handler: an `EmitEvent` action is noted; rules emit events by
    /// their outputs.
    NoteEvent,
    /// No handler: a warning names the type, and the action is skipped.
    Unhandled,
}

/// What is done with an action: a handler registered for its type takes it;
/// without one, a `Log` action is logged, an `EmitEvent` action is noted,
/// and any other is skipped with a warning.
pub open spec fn dispatch_of(action: &RuleActionDef, has_handler: bool) -> ActionDispatch {
    if has_handler {
        ActionDispatch::Handler
    } else {
        match action {
            RuleActionDef::Log { .. } => ActionDispatch::LogMessage,
            RuleActionDef::EmitEvent(_) => ActionDispatch::NoteEvent,
            _ => ActionDispatch::Unhandled,
        }
    }
}

/// Decides what is done with an action, given whether a handler is
/// registered for its type.
pub fn dispatch_action(action: &RuleActionDef, has_handler: bool) -> (r: ActionDispatch)
    ensures
        r == dispatch_of(action, has_handler),
{
    if has_handler {
        ActionDispatch::Handler
    } else {
        match action {
            RuleActionDef::Log { .. } => ActionDispatch::LogMessage,
            RuleActionDef::EmitEvent(_) => ActionDispatch::NoteEvent,
            _ => ActionDispatch::Unhandled,
        }
    }
}

/// A rule as a rule file writes it.
#[derive(Debug)]
pub struct RuleDef {
    /// The rule's name; a rule without one gets a generated name.
    pub id: String,
    /// The event that triggers the rule.
    pub event: RuleEventDef,
    /// Condition expressions; all must hold.
    pub conditions: Vec<String>,
    /// A structured condition.
    pub condition: RuleConditionDef,
    /// Actions, run by the application.
    pub actions: Vec<RuleActionDef>,
    /// Changes to the facts.
    pub modifications: Vec<FactModificationDef>,
    /// Events to emit after the rule has fired.
    pub outputs: Vec<String>,
    /// Whether the rule is enabled.
    pub enabled: bool,
    /// Rules of higher priority are tried first.
    pub priority: i32,
}

/// The modifications that a list of definitions stands for.
pub open spec fn mod_defs(list: Seq<FactModificationDef>) -> Seq<ModData> {
    Seq::new(list.len(), |i: int| list[i]@)
}

impl RuleDef {
    /// The name of the rule at this index of its file: its own name, or a
    /// generated one.
    pub open spec fn id_at(&self, index: nat) -> Seq<char> {
        if self.id@.len() == 0 {
            generated_id(self.event.event_id(), index)
        } else {
            self.id@
        }
    }

    /// The rule that the definition at this index of its file stands for:
    /// a local rule that consumes its event.
    pub open spec fn rule_at(&self, index: nat) -> RuleData {
        RuleData {
            id: self.id_at(index),
            scope: RuleScope::Local,
            trigger: self.event.event_id(),
            condition: self.condition@,
            condition_expressions: texts(self.conditions@),
            modifications: mod_defs(self.modifications@),
            outputs: texts(self.outputs@),
            enabled: self.enabled,
            priority: self.priority,
            consume_event: true,
        }
    }

    /// The name of the rule at this index of its file.
    pub fn generate_id(&self, index: usize) -> (r: String)
        ensures
            r@ == self.id_at(index as nat),
    {
        if self.id.as_str().unicode_len() == 0 {
            let event_id = self.event.to_event_id();
            generate_rule_id(event_id.as_str(), index)
        } else {
            self.id.clone()
        }
    }

    /// The rule that the definition stands for, as the first of its file.
    pub fn to_rule(&self) -> (r: Rule)
        ensures
            r@ == self.rule_at(0),
    {
        self.to_rule_with_index(0)
    }

    /// The rule that the definition at this index of its file stands for.
    /// The actions are not part of the rule: the application runs them.
    pub fn to_rule_with_index(&self, index: usize) -> (r: Rule)
        ensures
            r@ == self.rule_at(index as nat),
    {
        let id = self.generate_id(index);
        let event_id = self.event.to_event_id();
        let mut modifications: Vec<FactModification> = Vec::new();
        let mut i: usize = 0;
        while i < self.modifications.len()
            invariant
                i <= self.modifications.len(),
                modifications.len() == i,
                forall|j: int| 0 <= j < i ==> modifications[j]@ == self.modifications[j]@,
            decreases self.modifications.len() - i,
        {
            modifications.push(self.modifications[i].to_modification());
            i += 1;
        }
        let mut outputs: Vec<FactEventId> = Vec::new();
        let mut k: usize = 0;
        while k < self.outputs.len()
            invariant
                k <= self.outputs.len(),
                outputs.len() == k,
                forall|j: int| 0 <= j < k ==> outputs[j]@ == self.outputs[j]@,
            decreases self.outputs.len() - k,
        {
            outputs.push(FactEventId::new(self.outputs[k].as_str()));
            k += 1;
        }
        let rule = Rule {
            id,
            scope: RuleScope::Local,
            trigger: FactEventId::new(event_id.as_str()),
            condition: self.condition.to_condition(),
            condition_expressions: copy_strings(&self.conditions),
            modifications,
            outputs,
            enabled: self.enabled,
            priority: self.priority,
            consume_event: true,
        };
        assert(rule@.modifications =~= mod_defs(self.modifications@));
        assert(rule@.outputs =~= texts(self.outputs@));
        rule
    }
}

/// The rules that a list of definitions stands for, each at its index.
pub open spec fn rules_of(defs: Seq<RuleDef>) -> Seq<RuleData> {
    Seq::new(defs.len(), |i: int| defs[i].rule_at(i as nat))
}

/// The registry after a list of rules is registered, in order.
pub open spec fn registered_all(rules: Seq<RuleData>, added: Seq<RuleData>) -> Seq<RuleData>
    decreases added.len(),
{
    if added.len() == 0 {
        rules
    } else {
        registered(registered_all(rules, added.drop_last()), added.last())
    }
}

/// The facts and rules of one rule file.
#[derive(Debug)]
pub struct FreAsset {
    /// The facts to set when the file is loaded, by key.
    pub facts: Vec<(String, FactValueDef)>,
    /// The rules of the file.
    pub rules: Vec<RuleDef>,
}

impl FreAsset {
    /// Registers the rules of the file, in order; a rule without a name
    /// gets one from its event and its index.
    pub fn register_rules(&self, registry: &mut RuleRegistry)
        ensures
            final(registry)@ == registered_all(old(registry)@, rules_of(self.rules@)),
    {
        let ghost all = rules_of(self.rules@);
        let ghost start = registry@;
        let mut i: usize = 0;
        assert(all.take(0) =~= Seq::<RuleData>::empty());
        while i < self.rules.len()
            invariant
                i <= self.rules.len(),
                all == rules_of(self.rules@),
                registry@ == registered_all(start, all.take(i as int)),
            decreases self.rules.len() - i,
        {
            assert(all.take(i + 1).drop_last() =~= all.take(i as int));
            assert(all.take(i + 1).last() == self.rules[i as int].rule_at(i as nat));
            let rule = self.rules[i].to_rule_with_index(i);
            registry.register(rule);
            i += 1;
        }
        assert(all.take(i as int) =~= all);
    }

    /// The facts of the file.
    pub fn get_facts(&self) -> (r: &Vec<(String, FactValueDef)>)
        ensures
            r == &self.facts,
    {
        &self.facts
    }

    /// The rule definitions of the file, for the handling of their actions.
    pub fn get_rule_defs(&self) -> (r: &Vec<RuleDef>)
        ensures
            r == &self.rules,
    {
        &self.rules
    }
}

} // verus!
