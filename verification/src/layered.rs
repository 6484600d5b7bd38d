//! The layered fact store: a global layer that persists and a local layer
//! for the current scene. Reads look in the local layer first; writes go to
//! the local layer unless the operation names the global one.

use vstd::prelude::*;
use crate::database::{
    bool_at, float_at, int_at, text_at, wrapped_sum, FactDatabase, FactReader,
};
use crate::value::{FactData, FactKey, FactValue};

verus! {

/// What a read sees: the local value where the local layer has the key, the
/// global value otherwise.
pub open spec fn layered_reading(
    local: Map<Seq<char>, FactData>,
    global: Map<Seq<char>, FactData>,
) -> Map<Seq<char>, FactData> {
    global.union_prefer_right(local)
}

/// The remainder of a division that rounds toward zero: it has the sign of
/// `a`, and its size is that of `|a|` modulo `|b|`.
pub open spec fn truncated_rem(a: int, b: int) -> int
    recommends
        b != 0,
{
    let size_a = if a < 0 { -a } else { a };
    let size_b = if b < 0 { -b } else { b };
    if a < 0 {
        -(size_a % size_b)
    } else {
        size_a % size_b
    }
}

/// The one number in `min..max` that differs from `v` by a multiple of
/// `max - min`.
pub open spec fn wrapped_into(v: int, min: int, max: int) -> int
    recommends
        min < max,
{
    (v - min) % (max - min) + min
}

/// A fact store in two layers.
#[derive(Debug)]
pub struct LayeredFactDatabase {
    global: FactDatabase,
    local: FactDatabase,
}

impl LayeredFactDatabase {
    /// The facts of the local layer.
    pub closed spec fn local_view(&self) -> Map<Seq<char>, FactData> {
        self.local@
    }

    /// The facts of the global layer.
    pub closed spec fn global_view(&self) -> Map<Seq<char>, FactData> {
        self.global@
    }

    /// What reads see: local first, then global.
    pub open spec fn view(&self) -> Map<Seq<char>, FactData> {
        layered_reading(self.local_view(), self.global_view())
    }

    /// A store with two empty layers.
    pub fn new() -> (r: LayeredFactDatabase)
        ensures
            r.local_view() == Map::<Seq<char>, FactData>::empty(),
            r.global_view() == Map::<Seq<char>, FactData>::empty(),
    {
        LayeredFactDatabase { global: FactDatabase::new(), local: FactDatabase::new() }
    }

    /// The value under `key`: the local one if the local layer has the key,
    /// else the global one.
    pub fn get(&self, key: &FactKey) -> (r: Option<&FactValue>)
        ensures
            match r {
                Some(v) => self@.contains_key(key@) && v@ == self@[key@],
                None => !self@.contains_key(key@),
            },
    {
        self.get_by_str(key.as_str())
    }

    /// The value under the key with this name, local layer first.
    pub fn get_by_str(&self, key: &str) -> (r: Option<&FactValue>)
        ensures
            match r {
                Some(v) => self@.contains_key(key@) && v@ == self@[key@],
                None => !self@.contains_key(key@),
            },
    {
        match self.local.get_by_str(key) {
            Some(v) => Some(v),
            None => self.global.get_by_str(key),
        }
    }

    /// The integer that a read of `key` gives, if it gives an `Int`.
    pub fn get_int(&self, key: &str) -> (r: Option<i64>)
        ensures
            r == int_at(self@, key@),
    {
        match self.get_by_str(key) {
            Some(v) => v.as_int(),
            None => None,
        }
    }

    /// The integer that a read of `key` gives, or `default`.
    pub fn get_int_or(&self, key: &str, default: i64) -> (r: i64)
        ensures
            r == int_at(self@, key@).unwrap_or(default),
    {
        self.get_int(key).unwrap_or(default)
    }

    /// The bit pattern that a read of `key` gives, if it gives a `Float`.
    pub fn get_float(&self, key: &str) -> (r: Option<u64>)
        ensures
            r == float_at(self@, key@),
    {
        match self.get_by_str(key) {
            Some(v) => v.as_float(),
            None => None,
        }
    }

    /// The boolean that a read of `key` gives, if it gives a `Bool`.
    pub fn get_bool(&self, key: &str) -> (r: Option<bool>)
        ensures
            r == bool_at(self@, key@),
    {
        match self.get_by_str(key) {
            Some(v) => v.as_bool(),
            None => None,
        }
    }

    /// The text that a read of `key` gives, if it gives a `String`.
    pub fn get_string(&self, key: &str) -> (r: Option<&str>)
        ensures
            match text_at(self@, key@) {
                Some(t) => r.is_some() && r.unwrap()@ == t,
                None => r.is_none(),
            },
    {
        match self.get_by_str(key) {
            Some(v) => v.as_string(),
            None => None,
        }
    }

    /// Whether either layer has the key.
    pub fn contains(&self, key: &str) -> (r: bool)
        ensures
            r == self@.contains_key(key@),
            r == (self.local_view().contains_key(key@) || self.global_view().contains_key(key@)),
    {
        self.local.contains(key) || self.global.contains(key)
    }

    /// Whether the local layer has the key.
    pub fn contains_local(&self, key: &str) -> (r: bool)
        ensures
            r == self.local_view().contains_key(key@),
    {
        self.local.contains(key)
    }

    /// Whether the global layer has the key.
    pub fn contains_global(&self, key: &str) -> (r: bool)
        ensures
            r == self.global_view().contains_key(key@),
    {
        self.global.contains(key)
    }

    /// Stores `value` under `key` in the local layer.
    pub fn set(&mut self, key: &str, value: FactValue)
        ensures
            final(self).local_view() == old(self).local_view().insert(key@, value@),
            final(self).global_view() == old(self).global_view(),
    {
        self.local.set(key, value);
    }

    /// Stores `value` under `key` in the local layer; the same as `set`.
    pub fn set_local(&mut self, key: &str, value: FactValue)
        ensures
            final(self).local_view() == old(self).local_view().insert(key@, value@),
            final(self).global_view() == old(self).global_view(),
    {
        self.local.set(key, value);
    }

    /// Stores `value` under `key` in the global layer.
    pub fn set_global(&mut self, key: &str, value: FactValue)
        ensures
            final(self).global_view() == old(self).global_view().insert(key@, value@),
            final(self).local_view() == old(self).local_view(),
    {
        self.global.set(key, value);
    }

    /// Adds `amount` to the integer that a read of `key` gives (0 where it
    /// gives none) and stores the sum in the local layer. The sum wraps round
    /// at the ends of the 64-bit range.
    pub fn increment(&mut self, key: &str, amount: i64)
        ensures
            final(self).local_view() == old(self).local_view().insert(
                key@,
                FactData::Int(wrapped_sum(int_at(old(self)@, key@).unwrap_or(0), amount)),
            ),
            final(self).global_view() == old(self).global_view(),
    {
        let current = self.get_int_or(key, 0);
        self.local.set(key, FactValue::Int(current.wrapping_add(amount)));
    }

    /// Adds `amount` to the integer that a read of `key` gives (0 where it
    /// gives none) and stores the sum in the global layer.
    pub fn increment_global(&mut self, key: &str, amount: i64)
        ensures
            final(self).global_view() == old(self).global_view().insert(
                key@,
                FactData::Int(wrapped_sum(int_at(old(self)@, key@).unwrap_or(0), amount)),
            ),
            final(self).local_view() == old(self).local_view(),
    {
        let current = self.get_int_or(key, 0);
        self.global.set(key, FactValue::Int(current.wrapping_add(amount)));
    }

    /// Replaces the integer that a read of `key` gives by its remainder on
    /// division by `divisor`, stored in the local layer. Nothing changes
    /// where the divisor is 0 or the read gives no integer.
    pub fn modulo(&mut self, key: &str, divisor: i64)
        ensures
            final(self).global_view() == old(self).global_view(),
            final(self).local_view() == (match int_at(old(self)@, key@) {
                Some(v) if divisor != 0 => old(self).local_view().insert(
                    key@,
                    FactData::Int(truncated_rem(v as int, divisor as int) as i64),
                ),
                _ => old(self).local_view(),
            }),
    {
        if divisor == 0 {
            return;
        }
        if let Some(v) = self.get_int(key) {
            let rem: i64 = remainder(v, divisor);
            self.local.set(key, FactValue::Int(rem));
        }
    }

    /// Wraps the integer that a read of `key` gives into `min..max` and
    /// stores it in the local layer. Nothing changes where `max <= min` or
    /// the read gives no integer.
    pub fn wrap(&mut self, key: &str, min: i64, max: i64)
        ensures
            final(self).global_view() == old(self).global_view(),
            final(self).local_view() == (match int_at(old(self)@, key@) {
                Some(v) if min < max => old(self).local_view().insert(
                    key@,
                    FactData::Int(wrapped_into(v as int, min as int, max as int) as i64),
                ),
                _ => old(self).local_view(),
            }),
    {
        if max <= min {
            return;
        }
        if let Some(v) = self.get_int(key) {
            let wrapped: i64 = wrap_into(v, min, max);
            self.local.set(key, FactValue::Int(wrapped));
        }
    }

    /// Takes the fact out of the local layer and returns its value.
    pub fn remove(&mut self, key: &str) -> (r: Option<FactValue>)
        ensures
            final(self).local_view() == old(self).local_view().remove(key@),
            final(self).global_view() == old(self).global_view(),
            match r {
                Some(v) => old(self).local_view().contains_key(key@) && v@
                    == old(self).local_view()[key@],
                None => !old(self).local_view().contains_key(key@),
            },
    {
        self.local.remove(key)
    }

    /// Takes the fact out of the global layer and returns its value.
    pub fn remove_global(&mut self, key: &str) -> (r: Option<FactValue>)
        ensures
            final(self).global_view() == old(self).global_view().remove(key@),
            final(self).local_view() == old(self).local_view(),
            match r {
                Some(v) => old(self).global_view().contains_key(key@) && v@
                    == old(self).global_view()[key@],
                None => !old(self).global_view().contains_key(key@),
            },
    {
        self.global.remove(key)
    }

    /// Empties the local layer; the global layer stays as it is.
    pub fn clear_local(&mut self)
        ensures
            final(self).local_view() == Map::<Seq<char>, FactData>::empty(),
            final(self).global_view() == old(self).global_view(),
    {
        self.local.clear();
    }

    /// Empties the global layer; the local layer stays as it is.
    pub fn clear_global(&mut self)
        ensures
            final(self).global_view() == Map::<Seq<char>, FactData>::empty(),
            final(self).local_view() == old(self).local_view(),
    {
        self.global.clear();
    }

    /// Empties both layers.
    pub fn clear_all(&mut self)
        ensures
            final(self).local_view() == Map::<Seq<char>, FactData>::empty(),
            final(self).global_view() == Map::<Seq<char>, FactData>::empty(),
    {
        self.local.clear();
        self.global.clear();
    }

    /// Moves a fact from the local layer to the global one. Returns whether
    /// the local layer had the key; nothing changes where it had not.
    pub fn promote_to_global(&mut self, key: &str) -> (r: bool)
        ensures
            r == old(self).local_view().contains_key(key@),
            r ==> final(self).local_view() == old(self).local_view().remove(key@)
                && final(self).global_view() == old(self).global_view().insert(
                key@,
                old(self).local_view()[key@],
            ),
            !r ==> final(self).local_view() == old(self).local_view() && final(self).global_view()
                == old(self).global_view(),
    {
        match self.local.remove(key) {
            Some(value) => {
                self.global.set(key, value);
                true
            },
            None => {
                assert(old(self).local_view().remove(key@) =~= old(self).local_view());
                false
            },
        }
    }

    /// Copies a fact from the local layer to the global one and keeps the
    /// local one. Returns whether the local layer had the key.
    pub fn copy_to_global(&mut self, key: &str) -> (r: bool)
        ensures
            r == old(self).local_view().contains_key(key@),
            final(self).local_view() == old(self).local_view(),
            r ==> final(self).global_view() == old(self).global_view().insert(
                key@,
                old(self).local_view()[key@],
            ),
            !r ==> final(self).global_view() == old(self).global_view(),
    {
        let copy = match self.local.get_by_str(key) {
            Some(v) => Some(v.clone()),
            None => None,
        };
        match copy {
            Some(value) => {
                self.global.set(key, value);
                true
            },
            None => false,
        }
    }

    /// Moves a fact from the global layer to the local one. Returns whether
    /// the global layer had the key; nothing changes where it had not.
    pub fn demote_to_local(&mut self, key: &str) -> (r: bool)
        ensures
            r == old(self).global_view().contains_key(key@),
            r ==> final(self).global_view() == old(self).global_view().remove(key@)
                && final(self).local_view() == old(self).local_view().insert(
                key@,
                old(self).global_view()[key@],
            ),
            !r ==> final(self).local_view() == old(self).local_view() && final(self).global_view()
                == old(self).global_view(),
    {
        match self.global.remove(key) {
            Some(value) => {
                self.local.set(key, value);
                true
            },
            None => {
                assert(old(self).global_view().remove(key@) =~= old(self).global_view());
                false
            },
        }
    }

    /// The local layer.
    pub fn local(&self) -> (r: &FactDatabase)
        ensures
            r@ == self.local_view(),
    {
        &self.local
    }

    /// The global layer.
    pub fn global(&self) -> (r: &FactDatabase)
        ensures
            r@ == self.global_view(),
    {
        &self.global
    }

    /// The local layer, to change it in place.
    pub fn local_mut(&mut self) -> (r: &mut FactDatabase)
        ensures
            r@ == old(self).local_view(),
            final(self).local_view() == final(r)@,
            final(self).global_view() == old(self).global_view(),
    {
        &mut self.local
    }

    /// The global layer, to change it in place.
    pub fn global_mut(&mut self) -> (r: &mut FactDatabase)
        ensures
            r@ == old(self).global_view(),
            final(self).global_view() == final(r)@,
            final(self).local_view() == old(self).local_view(),
    {
        &mut self.global
    }

    /// The number of facts in the local layer.
    pub fn local_len(&self) -> (r: usize)
        ensures
            self.local_view().dom().finite(),
            r == self.local_view().len(),
    {
        self.local.len()
    }

    /// The number of facts in the global layer.
    pub fn global_len(&self) -> (r: usize)
        ensures
            self.global_view().dom().finite(),
            r == self.global_view().len(),
    {
        self.global.len()
    }

    /// The number of facts in both layers together, a key that both layers
    /// hold counted twice; `usize::MAX` where the sum is larger than that.
    pub fn len(&self) -> (r: usize)
        ensures
            r == if self.local_view().len() + self.global_view().len() <= usize::MAX {
                self.local_view().len() + self.global_view().len()
            } else {
                usize::MAX as nat
            },
    {
        self.local.len().saturating_add(self.global.len())
    }

    /// Whether both layers are empty.
    pub fn is_empty(&self) -> (r: bool)
        ensures
            r == (self.local_view() == Map::<Seq<char>, FactData>::empty() && self.global_view()
                == Map::<Seq<char>, FactData>::empty()),
    {
        self.local.is_empty() && self.global.is_empty()
    }

    /// Every fact of the local layer, each once.
    pub fn iter_local(&self) -> (r: Vec<(&str, &FactValue)>)
        ensures
            self.local_view().dom().finite(),
            r.len() == self.local_view().len(),
            forall|i: int|
                0 <= i < r.len() ==> self.local_view().contains_key(#[trigger] r[i].0@) && r[i].1@
                    == self.local_view()[r[i].0@],
            forall|i: int, j: int| 0 <= i < j < r.len() ==> r[i].0@ != r[j].0@,
    {
        self.local.iter()
    }

    /// Every fact of the global layer, each once.
    pub fn iter_global(&self) -> (r: Vec<(&str, &FactValue)>)
        ensures
            self.global_view().dom().finite(),
            r.len() == self.global_view().len(),
            forall|i: int|
                0 <= i < r.len() ==> self.global_view().contains_key(#[trigger] r[i].0@)
                    && r[i].1@ == self.global_view()[r[i].0@],
            forall|i: int, j: int| 0 <= i < j < r.len() ==> r[i].0@ != r[j].0@,
    {
        self.global.iter()
    }
}

impl Default for LayeredFactDatabase {
    fn default() -> (r: LayeredFactDatabase)
        ensures
            r.local_view() == Map::<Seq<char>, FactData>::empty(),
            r.global_view() == Map::<Seq<char>, FactData>::empty(),
    {
        LayeredFactDatabase::new()
    }
}

/// The remainder of `a` on division by `b`, with the sign of `a`.
fn remainder(a: i64, b: i64) -> (r: i64)
    requires
        b != 0,
    ensures
        r == truncated_rem(a as int, b as int),
{
    let wide_a: i128 = a as i128;
    let wide_b: i128 = b as i128;
    let size_a: i128 = if wide_a < 0 { -wide_a } else { wide_a };
    let size_b: i128 = if wide_b < 0 { -wide_b } else { wide_b };
    let size: i128 = size_a % size_b;
    assert(0 <= size < size_b) by (nonlinear_arith)
        requires
            size == size_a % size_b,
            0 <= size_a,
            0 < size_b,
    ;
    assert(size <= size_a) by (nonlinear_arith)
        requires
            size == size_a % size_b,
            0 <= size_a,
            0 < size_b,
    ;
    if a < 0 {
        (-size) as i64
    } else {
        size as i64
    }
}

/// The one number in `min..max` that differs from `v` by a multiple of
/// `max - min`.
fn wrap_into(v: i64, min: i64, max: i64) -> (r: i64)
    requires
        min < max,
    ensures
        r == wrapped_into(v as int, min as int, max as int),
        min <= r < max,
{
    let range: i128 = max as i128 - min as i128;
    let offset: i128 = v as i128 - min as i128;
    let size: i128 = if offset < 0 { -offset } else { offset };
    let rem: i128 = size % range;
    assert(0 <= rem < range) by (nonlinear_arith)
        requires
            rem == size % range,
            0 <= size,
            0 < range,
    ;
    let shifted: i128 = if offset < 0 && rem != 0 {
        range - rem
    } else {
        rem
    };
    proof {
        lemma_wrap(offset as int, range as int, size as int, rem as int, shifted as int);
    }
    (shifted + min as i128) as i64
}

/// The remainder of a number, from the remainder of its size.
proof fn lemma_wrap(offset: int, range: int, size: int, rem: int, shifted: int)
    requires
        0 < range,
        size == if offset < 0 { -offset } else { offset },
        rem == size % range,
        shifted == if offset < 0 && rem != 0 { range - rem } else { rem },
    ensures
        shifted == offset % range,
        0 <= shifted < range,
{
    vstd::arithmetic::div_mod::lemma_fundamental_div_mod(size, range);
    vstd::arithmetic::div_mod::lemma_mod_bound(size, range);
    let q = size / range;
    assert(size == range * q + rem);
    if offset < 0 {
        if rem != 0 {
            assert(offset == (-q - 1) * range + (range - rem)) by (nonlinear_arith)
                requires
                    offset == -size,
                    size == range * q + rem,
            ;
            vstd::arithmetic::div_mod::lemma_fundamental_div_mod_converse(
                offset,
                range,
                -q - 1,
                range - rem,
            );
        } else {
            assert(offset == (-q) * range + 0) by (nonlinear_arith)
                requires
                    offset == -size,
                    size == range * q + rem,
                    rem == 0,
            ;
            vstd::arithmetic::div_mod::lemma_fundamental_div_mod_converse(offset, range, -q, 0);
        }
    }
}

impl FactReader for LayeredFactDatabase {
    open spec fn reading(&self) -> Map<Seq<char>, FactData> {
        self@
    }

    fn get(&self, key: &FactKey) -> (r: Option<&FactValue>) {
        LayeredFactDatabase::get_by_str(self, key.as_str())
    }

    fn get_by_str(&self, key: &str) -> (r: Option<&FactValue>) {
        LayeredFactDatabase::get_by_str(self, key)
    }

    fn contains(&self, key: &str) -> (r: bool) {
        LayeredFactDatabase::contains(self, key)
    }
}

} // verus!

verus! {

/// A value written with `set` is what a read of the same key gives next,
/// variant and contents unchanged, whatever the global layer holds.
pub proof fn law_set_then_get(
    before: LayeredFactDatabase,
    after: LayeredFactDatabase,
    key: Seq<char>,
    value: FactData,
)
    requires
        after.local_view() == before.local_view().insert(key, value),
        after.global_view() == before.global_view(),
    ensures
        after@.contains_key(key),
        after@[key] == value,
{
}

/// A local write shadows the global value of the same key: after
/// `set_global(k, g)` and `set_local(k, l)` a read of `k` gives `l`, and once
/// the local layer is cleared, or `k` removed from it, a read gives `g`
/// again.
pub proof fn law_local_shadows_global(
    start: LayeredFactDatabase,
    shadowed: LayeredFactDatabase,
    cleared: LayeredFactDatabase,
    removed: LayeredFactDatabase,
    key: Seq<char>,
    l: FactData,
    g: FactData,
)
    requires
        shadowed.global_view() == start.global_view().insert(key, g),
        shadowed.local_view() == start.local_view().insert(key, l),
        cleared.global_view() == shadowed.global_view(),
        cleared.local_view() == Map::<Seq<char>, FactData>::empty(),
        removed.global_view() == shadowed.global_view(),
        removed.local_view() == shadowed.local_view().remove(key),
    ensures
        shadowed@.contains_key(key) && shadowed@[key] == l,
        cleared@.contains_key(key) && cleared@[key] == g,
        removed@.contains_key(key) && removed@[key] == g,
{
}

/// Promoting a key that the local layer holds moves it: afterwards the
/// local layer lacks the key, the global layer has it with the value that
/// was local, and a read still gives that value.
pub proof fn law_promote_moves(
    before: LayeredFactDatabase,
    after: LayeredFactDatabase,
    key: Seq<char>,
)
    requires
        before.local_view().contains_key(key),
        after.local_view() == before.local_view().remove(key),
        after.global_view() == before.global_view().insert(key, before.local_view()[key]),
    ensures
        !after.local_view().contains_key(key),
        after.global_view().contains_key(key),
        after.global_view()[key] == before.local_view()[key],
        after@.contains_key(key) && after@[key] == before@[key],
{
}

} // verus!
