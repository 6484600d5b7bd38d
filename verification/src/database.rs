//! The flat fact store: a mapping from fact keys to fact values.

use vstd::prelude::*;
use crate::value::{texts, FactData, FactKey, FactValue};

verus! {

/// One fact: its key and its value.
#[derive(Debug)]
pub struct FactEntry {
    pub key: String,
    pub value: FactValue,
}

/// Whether some entry has the given key.
pub open spec fn has_key(entries: Seq<FactEntry>, key: Seq<char>) -> bool {
    exists|i: int| 0 <= i < entries.len() && entries[i].key@ == key
}

/// The position of an entry with the given key.
pub open spec fn position_of(entries: Seq<FactEntry>, key: Seq<char>) -> int {
    choose|i: int| 0 <= i < entries.len() && entries[i].key@ == key
}

/// No key occurs twice.
pub open spec fn distinct_keys(entries: Seq<FactEntry>) -> bool {
    forall|i: int, j: int| 0 <= i < j < entries.len() ==> entries[i].key@ != entries[j].key@
}

/// The mapping that a list of entries with distinct keys stands for.
pub open spec fn entries_map(entries: Seq<FactEntry>) -> Map<Seq<char>, FactData> {
    Map::new(
        |k: Seq<char>| has_key(entries, k),
        |k: Seq<char>| entries[position_of(entries, k)].value@,
    )
}

/// With distinct keys, the entry with a key is found at its own position.
pub proof fn lemma_position(entries: Seq<FactEntry>, i: int)
    requires
        distinct_keys(entries),
        0 <= i < entries.len(),
    ensures
        has_key(entries, entries[i].key@),
        position_of(entries, entries[i].key@) == i,
{
    let j = position_of(entries, entries[i].key@);
    assert(0 <= j < entries.len() && entries[j].key@ == entries[i].key@);
    if j < i {
        assert(entries[j].key@ != entries[i].key@);
    } else if i < j {
        assert(entries[i].key@ != entries[j].key@);
    }
}

/// Replacing the value of one entry inserts the new value under its key.
pub proof fn lemma_replace_value(before: Seq<FactEntry>, after: Seq<FactEntry>, i: int)
    requires
        distinct_keys(before),
        0 <= i < before.len(),
        after.len() == before.len(),
        after[i].key@ == before[i].key@,
        forall|j: int| 0 <= j < before.len() && j != i ==> after[j] == before[j],
    ensures
        distinct_keys(after),
        entries_map(after) == entries_map(before).insert(before[i].key@, after[i].value@),
{
    assert forall|a: int, b: int| 0 <= a < b < after.len() implies after[a].key@
        != after[b].key@ by {
        assert(after[a].key@ == before[a].key@);
        assert(after[b].key@ == before[b].key@);
    }
    let target = entries_map(before).insert(before[i].key@, after[i].value@);
    assert forall|k: Seq<char>| entries_map(after).contains_key(k) == target.contains_key(
        k,
    ) by {
        if has_key(after, k) {
            let j = position_of(after, k);
            assert(before[j].key@ == k);
        }
        if has_key(before, k) {
            let j = position_of(before, k);
            assert(after[j].key@ == k);
        }
        if k == before[i].key@ {
            assert(after[i].key@ == k);
        }
    }
    assert forall|k: Seq<char>| entries_map(after).contains_key(k) implies entries_map(after)[k]
        == target[k] by {
        let j = position_of(after, k);
        lemma_position(after, j);
        assert(before[j].key@ == k);
        lemma_position(before, j);
    }
    assert(entries_map(after) =~= target);
}

/// Appending an entry with a new key inserts it.
pub proof fn lemma_append(before: Seq<FactEntry>, entry: FactEntry)
    requires
        distinct_keys(before),
        !has_key(before, entry.key@),
    ensures
        distinct_keys(before.push(entry)),
        entries_map(before.push(entry)) == entries_map(before).insert(entry.key@, entry.value@),
{
    let after = before.push(entry);
    assert forall|a: int, b: int| 0 <= a < b < after.len() implies after[a].key@
        != after[b].key@ by {
        if b == before.len() {
            assert(before[a].key@ == after[a].key@);
        } else {
            assert(before[a] == after[a] && before[b] == after[b]);
        }
    }
    let target = entries_map(before).insert(entry.key@, entry.value@);
    assert forall|k: Seq<char>| entries_map(after).contains_key(k) == target.contains_key(
        k,
    ) by {
        if has_key(after, k) {
            let j = position_of(after, k);
            if j < before.len() {
                assert(before[j].key@ == k);
            }
        }
        if has_key(before, k) {
            let j = position_of(before, k);
            assert(after[j].key@ == k);
        }
        if k == entry.key@ {
            assert(after[before.len() as int].key@ == k);
        }
    }
    assert forall|k: Seq<char>| entries_map(after).contains_key(k) implies entries_map(after)[k]
        == target[k] by {
        let j = position_of(after, k);
        lemma_position(after, j);
        if j < before.len() {
            assert(before[j] == after[j]);
            lemma_position(before, j);
        }
    }
    assert(entries_map(after) =~= target);
}

/// Taking one entry out removes its key.
pub proof fn lemma_take_out(before: Seq<FactEntry>, i: int)
    requires
        distinct_keys(before),
        0 <= i < before.len(),
    ensures
        distinct_keys(before.remove(i)),
        entries_map(before.remove(i)) == entries_map(before).remove(before[i].key@),
{
    let after = before.remove(i);
    assert forall|a: int| 0 <= a < after.len() implies after[a] == before[if a < i {
        a
    } else {
        a + 1
    }] by {}
    assert forall|a: int, b: int| 0 <= a < b < after.len() implies after[a].key@
        != after[b].key@ by {
        let a0 = if a < i { a } else { a + 1 };
        let b0 = if b < i { b } else { b + 1 };
        assert(after[a] == before[a0] && after[b] == before[b0]);
    }
    let target = entries_map(before).remove(before[i].key@);
    assert forall|k: Seq<char>| entries_map(after).contains_key(k) == target.contains_key(
        k,
    ) by {
        if has_key(after, k) {
            let j = position_of(after, k);
            let j0 = if j < i { j } else { j + 1 };
            assert(before[j0].key@ == k);
            if j0 < i {
                assert(before[j0].key@ != before[i].key@);
            } else {
                assert(before[i].key@ != before[j0].key@);
            }
        }
        if has_key(before, k) && k != before[i].key@ {
            let j = position_of(before, k);
            let j1 = if j < i { j } else { j - 1 };
            assert(after[j1].key@ == k);
        }
    }
    assert forall|k: Seq<char>| entries_map(after).contains_key(k) implies entries_map(after)[k]
        == target[k] by {
        let j = position_of(after, k);
        lemma_position(after, j);
        let j0 = if j < i { j } else { j + 1 };
        assert(after[j] == before[j0]);
        lemma_position(before, j0);
    }
    assert(entries_map(after) =~= target);
}

/// A list of entries with distinct keys stands for a finite mapping with
/// one key for each entry.
pub proof fn lemma_count(entries: Seq<FactEntry>)
    requires
        distinct_keys(entries),
    ensures
        entries_map(entries).dom().finite(),
        entries_map(entries).len() == entries.len(),
    decreases entries.len(),
{
    if entries.len() == 0 {
        assert(entries_map(entries) =~= Map::<Seq<char>, FactData>::empty());
    } else {
        let front = entries.drop_last();
        let last = entries.last();
        assert(entries =~= front.push(last));
        assert(distinct_keys(front)) by {
            assert forall|a: int, b: int| 0 <= a < b < front.len() implies front[a].key@
                != front[b].key@ by {
                assert(front[a] == entries[a] && front[b] == entries[b]);
            }
        }
        assert(!has_key(front, last.key@)) by {
            if has_key(front, last.key@) {
                let j = position_of(front, last.key@);
                assert(entries[j].key@ == entries[entries.len() - 1].key@);
            }
        }
        lemma_count(front);
        lemma_append(front, last);
        assert(!entries_map(front).dom().contains(last.key@));
    }
}

/// A key-value store of facts. Keys are unique; nothing is promised about
/// the order in which `iter` hands the facts out.
#[derive(Debug)]
pub struct FactDatabase {
    entries: Vec<FactEntry>,
}

impl View for FactDatabase {
    type V = Map<Seq<char>, FactData>;

    closed spec fn view(&self) -> Map<Seq<char>, FactData> {
        entries_map(self.entries@)
    }
}

/// What an integer lookup gives: the number under the key if it is an
/// `Int`, nothing for a missing key or another variant.
pub open spec fn int_at(facts: Map<Seq<char>, FactData>, key: Seq<char>) -> Option<i64> {
    if facts.contains_key(key) {
        match facts[key] {
            FactData::Int(v) => Some(v),
            _ => None,
        }
    } else {
        None
    }
}

/// The bit pattern under the key if the value there is a `Float`.
pub open spec fn float_at(facts: Map<Seq<char>, FactData>, key: Seq<char>) -> Option<u64> {
    if facts.contains_key(key) {
        match facts[key] {
            FactData::Float(v) => Some(v),
            _ => None,
        }
    } else {
        None
    }
}

/// The boolean under the key if the value there is a `Bool`.
pub open spec fn bool_at(facts: Map<Seq<char>, FactData>, key: Seq<char>) -> Option<bool> {
    if facts.contains_key(key) {
        match facts[key] {
            FactData::Bool(v) => Some(v),
            _ => None,
        }
    } else {
        None
    }
}

/// The text under the key if the value there is a `String`.
pub open spec fn text_at(facts: Map<Seq<char>, FactData>, key: Seq<char>) -> Option<Seq<char>> {
    if facts.contains_key(key) {
        match facts[key] {
            FactData::Text(v) => Some(v),
            _ => None,
        }
    } else {
        None
    }
}

/// The list under the key if the value there is a `StringList`.
pub open spec fn text_list_at(facts: Map<Seq<char>, FactData>, key: Seq<char>) -> Option<
    Seq<Seq<char>>,
> {
    if facts.contains_key(key) {
        match facts[key] {
            FactData::TextList(v) => Some(v),
            _ => None,
        }
    } else {
        None
    }
}

/// The sum of two integers in two's complement, as `i64::wrapping_add`
/// gives it.
pub open spec fn wrapped_sum(a: i64, b: i64) -> i64 {
    if a + b > i64::MAX {
        (a + b - 0x1_0000_0000_0000_0000) as i64
    } else if a + b < i64::MIN {
        (a + b + 0x1_0000_0000_0000_0000) as i64
    } else {
        (a + b) as i64
    }
}

impl FactDatabase {
    #[verifier::type_invariant]
    spec fn inv(&self) -> bool {
        distinct_keys(self.entries@)
    }

    /// An empty store.
    pub fn new() -> (r: FactDatabase)
        ensures
            r@ == Map::<Seq<char>, FactData>::empty(),
    {
        let r = FactDatabase { entries: Vec::new() };
        assert(r@ =~= Map::<Seq<char>, FactData>::empty());
        r
    }

    /// The position of the entry with the given key.
    fn find(&self, key: &str) -> (r: Option<usize>)
        ensures
            match r {
                Some(i) => i < self.entries.len() && self.entries[i as int].key@ == key@,
                None => !has_key(self.entries@, key@),
            },
    {
        let mut i: usize = 0;
        while i < self.entries.len()
            invariant
                i <= self.entries.len(),
                forall|j: int| 0 <= j < i ==> self.entries[j].key@ != key@,
            decreases self.entries.len() - i,
        {
            if *self.entries[i].key.as_str() == *key {
                return Some(i);
            }
            i += 1;
        }
        None
    }

    /// Moves the entries out and leaves the store empty.
    fn take_entries(&mut self) -> (r: Vec<FactEntry>)
        ensures
            r@ == old(self).entries@,
            distinct_keys(r@),
    {
        proof {
            use_type_invariant(&*self);
        }
        let mut owned = FactDatabase::new();
        core::mem::swap(self, &mut owned);
        let FactDatabase { entries } = owned;
        entries
    }

    /// Stores `value` under `key`, replacing what was there.
    pub fn set(&mut self, key: &str, value: FactValue)
        ensures
            final(self)@ == old(self)@.insert(key@, value@),
    {
        let found = self.find(key);
        let mut entries = self.take_entries();
        let ghost before = entries@;
        match found {
            Some(i) => {
                entries[i].value = value;
                proof {
                    lemma_replace_value(before, entries@, i as int);
                }
            },
            None => {
                let entry = FactEntry { key: key.to_owned(), value };
                entries.push(entry);
                proof {
                    lemma_append(before, entry);
                }
            },
        }
        *self = FactDatabase { entries };
    }

    /// The value under `key`, if there is one.
    pub fn get(&self, key: &FactKey) -> (r: Option<&FactValue>)
        ensures
            match r {
                Some(v) => self@.contains_key(key@) && v@ == self@[key@],
                None => !self@.contains_key(key@),
            },
    {
        self.get_by_str(key.as_str())
    }

    /// The value under the key with the given name, if there is one.
    pub fn get_by_str(&self, key: &str) -> (r: Option<&FactValue>)
        ensures
            match r {
                Some(v) => self@.contains_key(key@) && v@ == self@[key@],
                None => !self@.contains_key(key@),
            },
    {
        proof {
            use_type_invariant(self);
        }
        match self.find(key) {
            Some(i) => {
                proof {
                    lemma_position(self.entries@, i as int);
                }
                Some(&self.entries[i].value)
            },
            None => None,
        }
    }

    /// Whether a fact with this key is stored.
    pub fn contains(&self, key: &str) -> (r: bool)
        ensures
            r == self@.contains_key(key@),
    {
        self.find(key).is_some()
    }

    /// Takes the fact with this key out and returns its value.
    pub fn remove(&mut self, key: &str) -> (r: Option<FactValue>)
        ensures
            final(self)@ == old(self)@.remove(key@),
            match r {
                Some(v) => old(self)@.contains_key(key@) && v@ == old(self)@[key@],
                None => !old(self)@.contains_key(key@),
            },
    {
        let found = self.find(key);
        let mut entries = self.take_entries();
        let ghost before = entries@;
        let out = match found {
            Some(i) => {
                proof {
                    lemma_position(before, i as int);
                    lemma_take_out(before, i as int);
                }
                let entry = entries.remove(i);
                Some(entry.value)
            },
            None => {
                assert(entries_map(before).remove(key@) =~= entries_map(before));
                None
            },
        };
        *self = FactDatabase { entries };
        out
    }

    /// The number of facts.
    pub fn len(&self) -> (r: usize)
        ensures
            self@.dom().finite(),
            r == self@.len(),
    {
        proof {
            use_type_invariant(self);
            lemma_count(self.entries@);
        }
        self.entries.len()
    }

    /// Whether no fact is stored.
    pub fn is_empty(&self) -> (r: bool)
        ensures
            r == (self@ == Map::<Seq<char>, FactData>::empty()),
    {
        proof {
            use_type_invariant(self);
            lemma_count(self.entries@);
            if self.entries.len() == 0 {
                assert(self@ =~= Map::<Seq<char>, FactData>::empty());
            }
        }
        self.entries.len() == 0
    }

    /// Takes every fact out.
    pub fn clear(&mut self)
        ensures
            final(self)@ == Map::<Seq<char>, FactData>::empty(),
    {
        *self = FactDatabase::new();
    }

    /// The integer under `key`; nothing for a missing key or another variant.
    pub fn get_int(&self, key: &str) -> (r: Option<i64>)
        ensures
            r == int_at(self@, key@),
    {
        match self.get_by_str(key) {
            Some(v) => v.as_int(),
            None => None,
        }
    }

    /// The integer under `key`, or `default` where `get_int` gives nothing.
    pub fn get_int_or(&self, key: &str, default: i64) -> (r: i64)
        ensures
            r == int_at(self@, key@).unwrap_or(default),
    {
        self.get_int(key).unwrap_or(default)
    }

    /// The bit pattern of the number under `key`, if it is a `Float`.
    pub fn get_float(&self, key: &str) -> (r: Option<u64>)
        ensures
            r == float_at(self@, key@),
    {
        match self.get_by_str(key) {
            Some(v) => v.as_float(),
            None => None,
        }
    }

    /// The boolean under `key`, if it is a `Bool`.
    pub fn get_bool(&self, key: &str) -> (r: Option<bool>)
        ensures
            r == bool_at(self@, key@),
    {
        match self.get_by_str(key) {
            Some(v) => v.as_bool(),
            None => None,
        }
    }

    /// The text under `key`, if it is a `String`.
    pub fn get_string(&self, key: &str) -> (r: Option<&str>)
        ensures
            match text_at(self@, key@) {
                Some(t) => r.is_some() && r.unwrap()@ == t,
                None => r.is_none(),
            },
    {
        match self.get_by_str(key) {
            Some(v) => v.as_string(),
            None => None,
        }
    }

    /// Adds `amount` to the integer under `key` and stores the sum there. A
    /// missing key, or one that holds another variant, counts as 0. The sum
    /// wraps round at the ends of the 64-bit range.
    pub fn increment(&mut self, key: &str, amount: i64)
        ensures
            final(self)@ == old(self)@.insert(
                key@,
                FactData::Int(wrapped_sum(int_at(old(self)@, key@).unwrap_or(0), amount)),
            ),
    {
        let current = self.get_int_or(key, 0);
        self.set(key, FactValue::Int(current.wrapping_add(amount)));
    }

    /// Every fact, each once, as key and value.
    pub fn iter(&self) -> (r: Vec<(&str, &FactValue)>)
        ensures
            self@.dom().finite(),
            r.len() == self@.len(),
            forall|i: int|
                0 <= i < r.len() ==> self@.contains_key(#[trigger] r[i].0@) && r[i].1@
                    == self@[r[i].0@],
            forall|i: int, j: int| 0 <= i < j < r.len() ==> r[i].0@ != r[j].0@,
    {
        proof {
            use_type_invariant(self);
            lemma_count(self.entries@);
        }
        let mut out: Vec<(&str, &FactValue)> = Vec::new();
        let mut i: usize = 0;
        while i < self.entries.len()
            invariant
                i <= self.entries.len(),
                out.len() == i,
                distinct_keys(self.entries@),
                forall|j: int|
                    0 <= j < i ==> out[j].0@ == self.entries[j].key@ && out[j].1@
                        == self.entries[j].value@,
            decreases self.entries.len() - i,
        {
            out.push((self.entries[i].key.as_str(), &self.entries[i].value));
            i += 1;
        }
        proof {
            assert forall|j: int| 0 <= j < out.len() implies self@.contains_key(
                #[trigger] out[j].0@,
            ) && out[j].1@ == self@[out[j].0@] by {
                lemma_position(self.entries@, j);
            }
        }
        out
    }
}

impl Default for FactDatabase {
    fn default() -> (r: FactDatabase)
        ensures
            r@ == Map::<Seq<char>, FactData>::empty(),
    {
        FactDatabase::new()
    }
}

impl Clone for FactDatabase {
    fn clone(&self) -> (r: FactDatabase)
        ensures
            r@ == self@,
    {
        proof {
            use_type_invariant(self);
        }
        let mut entries: Vec<FactEntry> = Vec::new();
        let mut i: usize = 0;
        while i < self.entries.len()
            invariant
                i <= self.entries.len(),
                entries.len() == i,
                forall|j: int|
                    0 <= j < i ==> entries[j].key@ == self.entries[j].key@ && entries[j].value@
                        == self.entries[j].value@,
            decreases self.entries.len() - i,
        {
            entries.push(
                FactEntry { key: self.entries[i].key.clone(), value: self.entries[i].value.clone() },
            );
            i += 1;
        }
        proof {
            lemma_same_entries(self.entries@, entries@);
        }
        FactDatabase { entries }
    }
}

/// Two lists of entries that agree key by key and value by value stand for
/// the same mapping.
pub proof fn lemma_same_entries(a: Seq<FactEntry>, b: Seq<FactEntry>)
    requires
        distinct_keys(a),
        a.len() == b.len(),
        forall|j: int| 0 <= j < a.len() ==> a[j].key@ == b[j].key@ && a[j].value@ == b[j].value@,
    ensures
        distinct_keys(b),
        entries_map(a) == entries_map(b),
{
    assert forall|i: int, j: int| 0 <= i < j < b.len() implies b[i].key@ != b[j].key@ by {
        assert(a[i].key@ != a[j].key@);
    }
    assert forall|k: Seq<char>| has_key(a, k) == has_key(b, k) by {
        if has_key(a, k) {
            let j = position_of(a, k);
            assert(b[j].key@ == k);
        }
        if has_key(b, k) {
            let j = position_of(b, k);
            assert(a[j].key@ == k);
        }
    }
    assert forall|k: Seq<char>| has_key(a, k) implies entries_map(a)[k] == entries_map(b)[k] by {
        let j = position_of(a, k);
        lemma_position(a, j);
        assert(b[j].key@ == k);
        lemma_position(b, j);
    }
    assert(entries_map(a) =~= entries_map(b));
}

/// Read access to facts, shared by the flat and the layered store.
pub trait FactReader {
    /// The mapping that reads go by.
    spec fn reading(&self) -> Map<Seq<char>, FactData>;

    /// The value that a read of `key` gives.
    fn get(&self, key: &FactKey) -> (r: Option<&FactValue>)
        ensures
            match r {
                Some(v) => self.reading().contains_key(key@) && v@ == self.reading()[key@],
                None => !self.reading().contains_key(key@),
            },
    ;

    /// The value that a read of the key with this name gives.
    fn get_by_str(&self, key: &str) -> (r: Option<&FactValue>)
        ensures
            match r {
                Some(v) => self.reading().contains_key(key@) && v@ == self.reading()[key@],
                None => !self.reading().contains_key(key@),
            },
    ;

    /// Whether a read of `key` gives a value.
    fn contains(&self, key: &str) -> (r: bool)
        ensures
            r == self.reading().contains_key(key@),
    ;

    /// The integer under `key`; nothing for a missing key or another variant.
    fn get_int(&self, key: &str) -> (r: Option<i64>)
        ensures
            r == int_at(self.reading(), key@),
    {
        match self.get_by_str(key) {
            Some(v) => v.as_int(),
            None => None,
        }
    }

    /// The integer under `key`, or `default` where `get_int` gives nothing.
    fn get_int_or(&self, key: &str, default: i64) -> (r: i64)
        ensures
            r == int_at(self.reading(), key@).unwrap_or(default),
    {
        self.get_int(key).unwrap_or(default)
    }

    /// The bit pattern of the number under `key`, if it is a `Float`.
    fn get_float(&self, key: &str) -> (r: Option<u64>)
        ensures
            r == float_at(self.reading(), key@),
    {
        match self.get_by_str(key) {
            Some(v) => v.as_float(),
            None => None,
        }
    }

    /// The boolean under `key`, if it is a `Bool`.
    fn get_bool(&self, key: &str) -> (r: Option<bool>)
        ensures
            r == bool_at(self.reading(), key@),
    {
        match self.get_by_str(key) {
            Some(v) => v.as_bool(),
            None => None,
        }
    }

    /// The text under `key`, if it is a `String`.
    fn get_string(&self, key: &str) -> (r: Option<&str>)
        ensures
            match text_at(self.reading(), key@) {
                Some(t) => r.is_some() && r.unwrap()@ == t,
                None => r.is_none(),
            },
    {
        match self.get_by_str(key) {
            Some(v) => v.as_string(),
            None => None,
        }
    }

    /// The list under `key`, if it is a `StringList`.
    fn get_string_list(&self, key: &str) -> (r: Option<&Vec<String>>)
        ensures
            match text_list_at(self.reading(), key@) {
                Some(t) => r.is_some() && texts(r.unwrap()@) == t,
                None => r.is_none(),
            },
    {
        match self.get_by_str(key) {
            Some(v) => v.as_string_list(),
            None => None,
        }
    }
}

impl FactReader for FactDatabase {
    open spec fn reading(&self) -> Map<Seq<char>, FactData> {
        self@
    }

    fn get(&self, key: &FactKey) -> (r: Option<&FactValue>) {
        self.get_by_str(key.as_str())
    }

    fn get_by_str(&self, key: &str) -> (r: Option<&FactValue>) {
        FactDatabase::get_by_str(self, key)
    }

    fn contains(&self, key: &str) -> (r: bool) {
        FactDatabase::contains(self, key)
    }
}

} // verus!
