//! Events: named signals that trigger rules. An event carries no logic.

use vstd::prelude::*;

verus! {

/// The name of a kind of event.
#[derive(Debug, PartialEq, Eq, Hash)]
pub struct FactEventId(pub String);

impl View for FactEventId {
    type V = Seq<char>;

    open spec fn view(&self) -> Seq<char> {
        self.0@
    }
}

impl FactEventId {
    /// The identifier with the given name.
    pub fn new(id: &str) -> (r: FactEventId)
        ensures
            r@ == id@,
    {
        FactEventId(id.to_owned())
    }
}

impl Clone for FactEventId {
    fn clone(&self) -> (r: FactEventId)
        ensures
            r@ == self@,
    {
        FactEventId(self.0.clone())
    }
}

impl<'a> From<&'a str> for FactEventId {
    fn from(s: &'a str) -> (r: FactEventId)
        ensures
            r@ == s@,
    {
        FactEventId(s.to_owned())
    }
}

impl<'a> vstd::std_specs::convert::FromSpecImpl<&'a str> for FactEventId {
    open spec fn obeys_from_spec() -> bool {
        false
    }

    open spec fn from_spec(s: &'a str) -> FactEventId {
        arbitrary()
    }
}

impl From<String> for FactEventId {
    fn from(s: String) -> (r: FactEventId)
        ensures
            r == FactEventId(s),
    {
        FactEventId(s)
    }
}

impl vstd::std_specs::convert::FromSpecImpl<String> for FactEventId {
    open spec fn obeys_from_spec() -> bool {
        true
    }

    open spec fn from_spec(s: String) -> FactEventId {
        FactEventId(s)
    }
}

/// The mapping that a list of pairs stands for; a later pair replaces an
/// earlier one with the same key.
pub open spec fn pairs_map(pairs: Seq<(String, String)>) -> Map<Seq<char>, Seq<char>>
    decreases pairs.len(),
{
    if pairs.len() == 0 {
        Map::empty()
    } else {
        pairs_map(pairs.drop_last()).insert(pairs.last().0@, pairs.last().1@)
    }
}

/// What an event is, as mathematics.
pub struct EventData {
    pub id: Seq<char>,
    pub entity: Option<u64>,
    pub data: Map<Seq<char>, Seq<char>>,
}

/// The event that a rule emits: the identifier alone.
pub open spec fn plain_event(id: Seq<char>) -> EventData {
    EventData { id, entity: None, data: Map::empty() }
}

/// An event: its identifier, the handle of the entity it came from, if any,
/// and string data by key.
#[derive(Debug)]
pub struct FactEvent {
    /// The kind of event.
    pub id: FactEventId,
    /// The entity that the event belongs to, by its handle.
    pub entity: Option<u64>,
    /// Further data; of two pairs with one key the later one counts.
    pub data: Vec<(String, String)>,
}

impl View for FactEvent {
    type V = EventData;

    open spec fn view(&self) -> EventData {
        EventData { id: self.id@, entity: self.entity, data: pairs_map(self.data@) }
    }
}

impl FactEvent {
    /// The data of the event, by key.
    pub open spec fn data_view(&self) -> Map<Seq<char>, Seq<char>> {
        pairs_map(self.data@)
    }

    /// An event with this identifier, no entity and no data.
    pub fn new(id: &str) -> (r: FactEvent)
        ensures
            r@ == plain_event(id@),
    {
        FactEvent { id: FactEventId::new(id), entity: None, data: Vec::new() }
    }

    /// An event with this identifier and entity and no data.
    pub fn with_entity(id: &str, entity: u64) -> (r: FactEvent)
        ensures
            r@ == (EventData { entity: Some(entity), ..plain_event(id@) }),
    {
        FactEvent { id: FactEventId::new(id), entity: Some(entity), data: Vec::new() }
    }

    /// The same event with `value` stored under `key`.
    pub fn with_data(self, key: &str, value: &str) -> (r: FactEvent)
        ensures
            r@ == (EventData { data: self@.data.insert(key@, value@), ..self@ }),
    {
        let mut out = self;
        let ghost before = out.data@;
        out.data.push((key.to_owned(), value.to_owned()));
        assert(out.data@.drop_last() =~= before);
        out
    }

    /// The data stored under `key`, if there is any.
    pub fn get_data(&self, key: &str) -> (r: Option<&String>)
        ensures
            match r {
                Some(v) => self.data_view().contains_key(key@) && v@ == self.data_view()[key@],
                None => !self.data_view().contains_key(key@),
            },
    {
        let mut i: usize = self.data.len();
        assert(self.data@.take(i as int) =~= self.data@);
        while i > 0
            invariant
                i <= self.data.len(),
                pairs_map(self.data@.take(i as int)).contains_key(key@)
                    == self.data_view().contains_key(key@),
                self.data_view().contains_key(key@) ==> pairs_map(self.data@.take(i as int))[key@]
                    == self.data_view()[key@],
            decreases i,
        {
            let ghost prefix = self.data@.take(i as int);
            assert(prefix.drop_last() =~= self.data@.take(i - 1));
            assert(prefix.last() == self.data@[i - 1]);
            i -= 1;
            if *self.data[i].0.as_str() == *key {
                return Some(&self.data[i].1);
            }
        }
        None
    }
}

impl Clone for FactEvent {
    fn clone(&self) -> (r: FactEvent)
        ensures
            r@ == self@,
    {
        let mut data: Vec<(String, String)> = Vec::new();
        let mut i: usize = 0;
        assert(self.data@.take(0) =~= Seq::<(String, String)>::empty());
        while i < self.data.len()
            invariant
                i <= self.data.len(),
                data.len() == i,
                pairs_map(data@) == pairs_map(self.data@.take(i as int)),
            decreases self.data.len() - i,
        {
            let ghost before = data@;
            data.push((self.data[i].0.clone(), self.data[i].1.clone()));
            assert(data@.drop_last() =~= before);
            assert(self.data@.take(i + 1).drop_last() =~= self.data@.take(i as int));
            i += 1;
        }
        assert(self.data@.take(i as int) =~= self.data@);
        FactEvent { id: self.id.clone(), entity: self.entity, data }
    }
}

} // verus!
