//! Fact keys and fact values.

use vstd::prelude::*;
use vstd::std_specs::cmp::PartialEqSpecImpl;

verus! {

/// Equality of string slices, `str`'s `PartialEq::eq`: two slices are equal
/// exactly when they hold the same characters.
pub assume_specification[ <str as PartialEq>::eq ](a: &str, b: &str) -> (r: bool)
    ensures
        r == (a@ == b@),
;

/// The name of a fact: an opaque, case-sensitive string.
#[derive(Debug, PartialEq, Eq, Hash)]
pub struct FactKey(pub String);

impl View for FactKey {
    type V = Seq<char>;

    open spec fn view(&self) -> Seq<char> {
        self.0@
    }
}

impl FactKey {
    /// A key with the given name.
    pub fn new(key: &str) -> (r: FactKey)
        ensures
            r@ == key@,
    {
        FactKey(key.to_owned())
    }

    /// The key's name.
    pub fn as_str(&self) -> (r: &str)
        ensures
            r@ == self@,
    {
        self.0.as_str()
    }
}

impl Clone for FactKey {
    fn clone(&self) -> (r: FactKey)
        ensures
            r@ == self@,
    {
        FactKey(self.0.clone())
    }
}

/// What a fact value is, as mathematics: the variant and its contents.
///
/// A binary64 number is held by its IEEE 754 bit pattern.
pub enum FactData {
    Int(i64),
    Float(u64),
    Bool(bool),
    Text(Seq<char>),
    TextList(Seq<Seq<char>>),
    IntList(Seq<i64>),
}

/// The texts of a list of strings.
pub open spec fn texts(list: Seq<String>) -> Seq<Seq<char>> {
    Seq::new(list.len(), |i: int| list[i]@)
}

/// The value of a fact: a closed union of six variants.
///
/// `Float` holds the IEEE 754 bit pattern of a binary64 number; the library
/// stores and compares such numbers and leaves arithmetic on them to its
/// callers.
#[derive(Debug)]
pub enum FactValue {
    Int(i64),
    Float(u64),
    Bool(bool),
    String(String),
    /// An ordered list of strings (inventories, tags).
    StringList(Vec<String>),
    /// An ordered list of integers (stat arrays).
    IntList(Vec<i64>),
}

impl View for FactValue {
    type V = FactData;

    open spec fn view(&self) -> FactData {
        match self {
            FactValue::Int(v) => FactData::Int(*v),
            FactValue::Float(v) => FactData::Float(*v),
            FactValue::Bool(v) => FactData::Bool(*v),
            FactValue::String(v) => FactData::Text(v@),
            FactValue::StringList(v) => FactData::TextList(texts(v@)),
            FactValue::IntList(v) => FactData::IntList(v@),
        }
    }
}

/// Whether a bit pattern is a binary64 NaN: all exponent bits set and a
/// fraction that is not zero.
pub open spec fn is_nan_bits(bits: u64) -> bool {
    (bits & 0x7fff_ffff_ffff_ffff) > 0x7ff0_0000_0000_0000
}

/// Whether a bit pattern is a binary64 zero, positive or negative.
pub open spec fn is_zero_bits(bits: u64) -> bool {
    (bits & 0x7fff_ffff_ffff_ffff) == 0
}

/// IEEE 754 equality of two binary64 numbers given by their bit patterns:
/// a NaN equals nothing, the two zeros equal each other, and any other
/// number equals only itself.
pub open spec fn float_bits_equal(a: u64, b: u64) -> bool {
    !is_nan_bits(a) && !is_nan_bits(b) && (a == b || (is_zero_bits(a) && is_zero_bits(b)))
}

/// Equality of fact values: the same variant with equal contents. An `Int`
/// never equals a `Float`, whatever the two hold.
pub open spec fn same_value(a: FactData, b: FactData) -> bool {
    match (a, b) {
        (FactData::Float(x), FactData::Float(y)) => float_bits_equal(x, y),
        (FactData::Float(_), _) => false,
        (_, FactData::Float(_)) => false,
        _ => a == b,
    }
}

/// Whether a bit pattern is a binary64 zero.
pub fn zero_bits(bits: u64) -> (r: bool)
    ensures
        r == is_zero_bits(bits),
{
    (bits & 0x7fff_ffff_ffff_ffff) == 0
}

/// Whether two bit patterns are equal as binary64 numbers.
pub fn float_eq(a: u64, b: u64) -> (r: bool)
    ensures
        r == float_bits_equal(a, b),
{
    let a_mag: u64 = a & 0x7fff_ffff_ffff_ffff;
    let b_mag: u64 = b & 0x7fff_ffff_ffff_ffff;
    if a_mag > 0x7ff0_0000_0000_0000 || b_mag > 0x7ff0_0000_0000_0000 {
        false
    } else {
        a == b || (a_mag == 0 && b_mag == 0)
    }
}

/// A copy of a list of strings.
pub fn copy_strings(list: &Vec<String>) -> (r: Vec<String>)
    ensures
        texts(r@) == texts(list@),
{
    let mut out: Vec<String> = Vec::new();
    let mut i: usize = 0;
    while i < list.len()
        invariant
            i <= list.len(),
            out.len() == i,
            forall|j: int| 0 <= j < i ==> out[j]@ == list[j]@,
        decreases list.len() - i,
    {
        out.push(list[i].clone());
        i += 1;
    }
    assert(texts(out@) =~= texts(list@));
    out
}

/// A copy of a list of integers.
pub fn copy_ints(list: &Vec<i64>) -> (r: Vec<i64>)
    ensures
        r@ == list@,
{
    let mut out: Vec<i64> = Vec::new();
    let mut i: usize = 0;
    while i < list.len()
        invariant
            i <= list.len(),
            out.len() == i,
            forall|j: int| 0 <= j < i ==> out[j] == list[j],
        decreases list.len() - i,
    {
        out.push(list[i]);
        i += 1;
    }
    assert(out@ =~= list@);
    out
}

/// Whether two lists of strings hold the same texts in the same order.
pub fn strings_equal(a: &Vec<String>, b: &Vec<String>) -> (r: bool)
    ensures
        r == (texts(a@) == texts(b@)),
{
    if a.len() != b.len() {
        assert(texts(a@).len() != texts(b@).len());
        return false;
    }
    let mut i: usize = 0;
    while i < a.len()
        invariant
            i <= a.len(),
            a.len() == b.len(),
            forall|j: int| 0 <= j < i ==> a[j]@ == b[j]@,
        decreases a.len() - i,
    {
        if a[i] != b[i] {
            assert(texts(a@)[i as int] != texts(b@)[i as int]);
            return false;
        }
        i += 1;
    }
    assert(texts(a@) =~= texts(b@));
    true
}

/// Whether two lists of integers are equal.
pub fn ints_equal(a: &Vec<i64>, b: &Vec<i64>) -> (r: bool)
    ensures
        r == (a@ == b@),
{
    if a.len() != b.len() {
        return false;
    }
    let mut i: usize = 0;
    while i < a.len()
        invariant
            i <= a.len(),
            a.len() == b.len(),
            forall|j: int| 0 <= j < i ==> a[j] == b[j],
        decreases a.len() - i,
    {
        if a[i] != b[i] {
            return false;
        }
        i += 1;
    }
    assert(a@ =~= b@);
    true
}

impl FactValue {
    /// The integer, if the value is an `Int`; no other variant converts.
    pub fn as_int(&self) -> (r: Option<i64>)
        ensures
            r == (match self@ {
                FactData::Int(v) => Some(v),
                _ => None,
            }),
    {
        match self {
            FactValue::Int(v) => Some(*v),
            _ => None,
        }
    }

    /// The bit pattern of the number, if the value is a `Float`.
    pub fn as_float(&self) -> (r: Option<u64>)
        ensures
            r == (match self@ {
                FactData::Float(v) => Some(v),
                _ => None,
            }),
    {
        match self {
            FactValue::Float(v) => Some(*v),
            _ => None,
        }
    }

    /// The boolean, if the value is a `Bool`.
    pub fn as_bool(&self) -> (r: Option<bool>)
        ensures
            r == (match self@ {
                FactData::Bool(v) => Some(v),
                _ => None,
            }),
    {
        match self {
            FactValue::Bool(v) => Some(*v),
            _ => None,
        }
    }

    /// The text, if the value is a `String`.
    pub fn as_string(&self) -> (r: Option<&str>)
        ensures
            match self@ {
                FactData::Text(t) => r.is_some() && r.unwrap()@ == t,
                _ => r.is_none(),
            },
    {
        match self {
            FactValue::String(v) => Some(v.as_str()),
            _ => None,
        }
    }

    /// The list, if the value is a `StringList`.
    pub fn as_string_list(&self) -> (r: Option<&Vec<String>>)
        ensures
            match self@ {
                FactData::TextList(t) => r.is_some() && texts(r.unwrap()@) == t,
                _ => r.is_none(),
            },
    {
        match self {
            FactValue::StringList(v) => Some(v),
            _ => None,
        }
    }

    /// The list, if the value is an `IntList`.
    pub fn as_int_list(&self) -> (r: Option<&Vec<i64>>)
        ensures
            match self@ {
                FactData::IntList(t) => r.is_some() && r.unwrap()@ == t,
                _ => r.is_none(),
            },
    {
        match self {
            FactValue::IntList(v) => Some(v),
            _ => None,
        }
    }

    /// Whether two values are equal: the same variant with equal contents.
    pub fn same_as(&self, other: &FactValue) -> (r: bool)
        ensures
            r == same_value(self@, other@),
    {
        match (self, other) {
            (FactValue::Int(a), FactValue::Int(b)) => *a == *b,
            (FactValue::Float(a), FactValue::Float(b)) => float_eq(*a, *b),
            (FactValue::Bool(a), FactValue::Bool(b)) => *a == *b,
            (FactValue::String(a), FactValue::String(b)) => *a == *b,
            (FactValue::StringList(a), FactValue::StringList(b)) => strings_equal(a, b),
            (FactValue::IntList(a), FactValue::IntList(b)) => ints_equal(a, b),
            _ => false,
        }
    }
}

impl PartialEq for FactValue {
    fn eq(&self, other: &FactValue) -> (r: bool) {
        self.same_as(other)
    }
}

impl PartialEqSpecImpl for FactValue {
    open spec fn obeys_eq_spec() -> bool {
        true
    }

    open spec fn eq_spec(&self, other: &FactValue) -> bool {
        same_value(self@, other@)
    }
}

impl Clone for FactValue {
    fn clone(&self) -> (r: FactValue)
        ensures
            r@ == self@,
    {
        match self {
            FactValue::Int(v) => FactValue::Int(*v),
            FactValue::Float(v) => FactValue::Float(*v),
            FactValue::Bool(v) => FactValue::Bool(*v),
            FactValue::String(v) => FactValue::String(v.clone()),
            FactValue::StringList(v) => FactValue::StringList(copy_strings(v)),
            FactValue::IntList(v) => FactValue::IntList(copy_ints(v)),
        }
    }
}

} // verus!

verus! {

impl<'a> From<&'a str> for FactKey {
    fn from(s: &'a str) -> (r: FactKey)
        ensures
            r@ == s@,
    {
        FactKey(s.to_owned())
    }
}

impl<'a> vstd::std_specs::convert::FromSpecImpl<&'a str> for FactKey {
    open spec fn obeys_from_spec() -> bool {
        false
    }

    open spec fn from_spec(s: &'a str) -> FactKey {
        arbitrary()
    }
}

impl From<String> for FactKey {
    fn from(s: String) -> (r: FactKey)
        ensures
            r == FactKey(s),
    {
        FactKey(s)
    }
}

impl vstd::std_specs::convert::FromSpecImpl<String> for FactKey {
    open spec fn obeys_from_spec() -> bool {
        true
    }

    open spec fn from_spec(s: String) -> FactKey {
        FactKey(s)
    }
}

impl From<i64> for FactValue {
    fn from(v: i64) -> (r: FactValue)
        ensures
            r == FactValue::Int(v),
    {
        FactValue::Int(v)
    }
}

impl vstd::std_specs::convert::FromSpecImpl<i64> for FactValue {
    open spec fn obeys_from_spec() -> bool {
        true
    }

    open spec fn from_spec(v: i64) -> FactValue {
        FactValue::Int(v)
    }
}

impl From<i32> for FactValue {
    fn from(v: i32) -> (r: FactValue)
        ensures
            r == FactValue::Int(v as i64),
    {
        FactValue::Int(v as i64)
    }
}

impl vstd::std_specs::convert::FromSpecImpl<i32> for FactValue {
    open spec fn obeys_from_spec() -> bool {
        true
    }

    open spec fn from_spec(v: i32) -> FactValue {
        FactValue::Int(v as i64)
    }
}

impl From<bool> for FactValue {
    fn from(v: bool) -> (r: FactValue)
        ensures
            r == FactValue::Bool(v),
    {
        FactValue::Bool(v)
    }
}

impl vstd::std_specs::convert::FromSpecImpl<bool> for FactValue {
    open spec fn obeys_from_spec() -> bool {
        true
    }

    open spec fn from_spec(v: bool) -> FactValue {
        FactValue::Bool(v)
    }
}

impl From<String> for FactValue {
    fn from(v: String) -> (r: FactValue)
        ensures
            r == FactValue::String(v),
    {
        FactValue::String(v)
    }
}

impl vstd::std_specs::convert::FromSpecImpl<String> for FactValue {
    open spec fn obeys_from_spec() -> bool {
        true
    }

    open spec fn from_spec(v: String) -> FactValue {
        FactValue::String(v)
    }
}

impl<'a> From<&'a str> for FactValue {
    fn from(v: &'a str) -> (r: FactValue)
        ensures
            r@ == FactData::Text(v@),
    {
        FactValue::String(v.to_owned())
    }
}

impl<'a> vstd::std_specs::convert::FromSpecImpl<&'a str> for FactValue {
    open spec fn obeys_from_spec() -> bool {
        false
    }

    open spec fn from_spec(v: &'a str) -> FactValue {
        arbitrary()
    }
}

impl From<Vec<String>> for FactValue {
    fn from(v: Vec<String>) -> (r: FactValue)
        ensures
            r == FactValue::StringList(v),
    {
        FactValue::StringList(v)
    }
}

impl vstd::std_specs::convert::FromSpecImpl<Vec<String>> for FactValue {
    open spec fn obeys_from_spec() -> bool {
        true
    }

    open spec fn from_spec(v: Vec<String>) -> FactValue {
        FactValue::StringList(v)
    }
}

impl From<Vec<i64>> for FactValue {
    fn from(v: Vec<i64>) -> (r: FactValue)
        ensures
            r == FactValue::IntList(v),
    {
        FactValue::IntList(v)
    }
}

impl vstd::std_specs::convert::FromSpecImpl<Vec<i64>> for FactValue {
    open spec fn obeys_from_spec() -> bool {
        true
    }

    open spec fn from_spec(v: Vec<i64>) -> FactValue {
        FactValue::IntList(v)
    }
}

impl<'a> From<Vec<&'a str>> for FactValue {
    fn from(v: Vec<&'a str>) -> (r: FactValue)
        ensures
            r@ == FactData::TextList(Seq::new(v.len() as nat, |i: int| v[i]@)),
    {
        let mut out: Vec<String> = Vec::new();
        let mut i: usize = 0;
        while i < v.len()
            invariant
                i <= v.len(),
                out.len() == i,
                forall|j: int| 0 <= j < i ==> out[j]@ == v[j]@,
            decreases v.len() - i,
        {
            out.push(v[i].to_owned());
            i += 1;
        }
        assert(texts(out@) =~= Seq::new(v.len() as nat, |i: int| v[i]@));
        FactValue::StringList(out)
    }
}

impl<'a> vstd::std_specs::convert::FromSpecImpl<Vec<&'a str>> for FactValue {
    open spec fn obeys_from_spec() -> bool {
        false
    }

    open spec fn from_spec(v: Vec<&'a str>) -> FactValue {
        arbitrary()
    }
}

impl From<Vec<i32>> for FactValue {
    fn from(v: Vec<i32>) -> (r: FactValue)
        ensures
            r@ == FactData::IntList(Seq::new(v.len() as nat, |i: int| v[i] as i64)),
    {
        let mut out: Vec<i64> = Vec::new();
        let mut i: usize = 0;
        while i < v.len()
            invariant
                i <= v.len(),
                out.len() == i,
                forall|j: int| 0 <= j < i ==> out[j] == v[j] as i64,
            decreases v.len() - i,
        {
            out.push(v[i] as i64);
            i += 1;
        }
        assert(out@ =~= Seq::new(v.len() as nat, |i: int| v[i] as i64));
        FactValue::IntList(out)
    }
}

impl vstd::std_specs::convert::FromSpecImpl<Vec<i32>> for FactValue {
    open spec fn obeys_from_spec() -> bool {
        false
    }

    open spec fn from_spec(v: Vec<i32>) -> FactValue {
        arbitrary()
    }
}

} // verus!
