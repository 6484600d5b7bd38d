//! The numeric helpers of the layered fact store that work with binary64
//! numbers, and the value of an expression as a fact value. The arithmetic
//! itself is asked of the caller, request by request; what is asked, in
//! which order, and what is written to the facts is decided here.

use vstd::prelude::*;
use crate::database::wrapped_sum;
use crate::expr::{
    answers, answers_integer, ask_integer, ask_number, compiled, computes, evaluate_expr,
    negated, Answer, BinaryOp, Request, RequestData,
};
use crate::layered::LayeredFactDatabase;
use crate::value::{is_zero_bits, zero_bits, FactData, FactValue};

verus! {

/// Marks a step of a computation; it holds of every value.
pub open spec fn step<T>(t: T) -> bool {
    true
}

/// What a read of the key gives.
pub open spec fn seen_at(facts: Map<Seq<char>, FactData>, key: Seq<char>) -> Option<FactData> {
    if facts.contains_key(key) {
        Some(facts[key])
    } else {
        None
    }
}

/// The local layer after a value is written under the key, or nothing is.
pub open spec fn stored(
    local: Map<Seq<char>, FactData>,
    key: Seq<char>,
    written: Option<FactData>,
) -> Map<Seq<char>, FactData> {
    match written {
        Some(v) => local.insert(key, v),
        None => local,
    }
}

/// A binary64 number as a fact value, if there is one.
pub open spec fn float_fact(bits: Option<u64>) -> Option<FactData> {
    match bits {
        Some(b) => Some(FactData::Float(b)),
        None => None,
    }
}

/// Whether a binary64 number is less in size than 2 to the power 63, the
/// least size that no 64-bit integer has: its bits without the sign are
/// below those of that power.
pub open spec fn fits_integer(bits: u64) -> bool {
    (bits & 0x7fff_ffff_ffff_ffff) < 0x43e0_0000_0000_0000
}

/// Whether `v` is the fact value of a number: an `Int` where the caller
/// answers that the number is whole, a `Float` of the same bits where it
/// answers anything else.
pub open spec fn whole_or_float<F: Fn(Request) -> Answer>(ask: F, bits: u64, v: FactData) -> bool {
    exists|w: Option<i64>|
        #[trigger] step(w) && answers_integer(ask, RequestData::Whole(bits), w) && v == (match w {
            Some(k) => FactData::Int(k),
            None => FactData::Float(bits),
        })
}

/// An operation on one number with fixed other operands.
#[derive(Debug, Clone, Copy, PartialEq, Eq, Structural)]
pub enum Scaling {
    /// Multiply by a factor.
    Times(u64),
    /// Divide by a divisor.
    Over(u64),
    /// Bring into the range from a lower to an upper bound.
    Between(u64, u64),
}

impl Scaling {
    /// The request that applies the operation to `x`.
    pub open spec fn request_for(self, x: u64) -> RequestData {
        match self {
            Scaling::Times(factor) => RequestData::Apply(BinaryOp::Times, x, factor),
            Scaling::Over(divisor) => RequestData::Apply(BinaryOp::Divide, x, divisor),
            Scaling::Between(min, max) => RequestData::Clamp(x, min, max),
        }
    }

    /// The request that applies the operation to `x`.
    pub fn request(self, x: u64) -> (r: Request)
        ensures
            r@ == self.request_for(x),
    {
        match self {
            Scaling::Times(factor) => Request::Apply(BinaryOp::Times, x, factor),
            Scaling::Over(divisor) => Request::Apply(BinaryOp::Divide, x, divisor),
            Scaling::Between(min, max) => Request::Clamp(x, min, max),
        }
    }
}

/// Whether `written` is what adding `amount` writes, given what a read of
/// the key gives. To an integer a whole amount is added as an integer, the
/// sum wrapping round at the ends of the 64-bit range, and any other amount
/// as a number; to a number the amount is added as a number; where there is
/// neither, the amount itself is written, as an `Int` if it is whole.
/// Nothing is written where the caller has no answer.
pub open spec fn summed<F: Fn(Request) -> Answer>(
    ask: F,
    seen: Option<FactData>,
    amount: u64,
    written: Option<FactData>,
) -> bool {
    match seen {
        Some(FactData::Int(i)) => exists|w: Option<i64>|
            #[trigger] step(w) && answers_integer(ask, RequestData::Whole(amount), w) && (match w {
                Some(k) => written == Some(FactData::Int(wrapped_sum(i, k))),
                None => exists|x: Option<u64>|
                    #[trigger] step(x) && answers(ask, RequestData::FromInt(i), x) && (match x {
                        None => written.is_none(),
                        Some(xb) => exists|s: Option<u64>|
                            #[trigger] step(s) && answers(
                                ask,
                                RequestData::Apply(BinaryOp::Plus, xb, amount),
                                s,
                            ) && written == float_fact(s),
                    }),
            }),
        Some(FactData::Float(f)) => exists|s: Option<u64>|
            #[trigger] step(s) && answers(ask, RequestData::Apply(BinaryOp::Plus, f, amount), s)
                && written == float_fact(s),
        _ => exists|v: FactData|
            #[trigger] step(v) && whole_or_float(ask, amount, v) && written == Some(v),
    }
}

/// Whether `written` is what an operation on the number under a key
/// writes, given what a read of the key gives. An integer is turned into a
/// number, the operation applied, and the result written as an `Int` if it
/// is whole, else as a `Float`; a number stays a `Float`. Nothing is
/// written where the read gives no number, or the caller has no answer.
pub open spec fn scaled<F: Fn(Request) -> Answer>(
    ask: F,
    seen: Option<FactData>,
    how: Scaling,
    written: Option<FactData>,
) -> bool {
    match seen {
        Some(FactData::Int(i)) => exists|x: Option<u64>|
            #[trigger] step(x) && answers(ask, RequestData::FromInt(i), x) && (match x {
                None => written.is_none(),
                Some(xb) => exists|p: Option<u64>|
                    #[trigger] step(p) && answers(ask, how.request_for(xb), p) && (match p {
                        None => written.is_none(),
                        Some(pb) => exists|v: FactData|
                            #[trigger] step(v) && whole_or_float(ask, pb, v) && written == Some(v),
                    }),
            }),
        Some(FactData::Float(f)) => exists|p: Option<u64>|
            #[trigger] step(p) && answers(ask, how.request_for(f), p) && written == float_fact(p),
        _ => written.is_none(),
    }
}

/// The view of a value that a read gave.
pub open spec fn read_view(value: Option<&FactValue>) -> Option<FactData> {
    match value {
        Some(v) => Some(v@),
        None => None,
    }
}

/// The view of a value to write.
pub open spec fn write_view(value: Option<FactValue>) -> Option<FactData> {
    match value {
        Some(v) => Some(v@),
        None => None,
    }
}

/// The fact value of a number: an `Int` if the caller answers that it is
/// whole, else a `Float`.
pub fn whole_or_float_value<F: Fn(Request) -> Answer>(bits: u64, ask: &F) -> (v: FactValue)
    requires
        forall|any: Request| call_requires(*ask, (any,)),
    ensures
        whole_or_float(*ask, bits, v@),
{
    let w = ask_integer(ask, Request::Whole(bits));
    assert(step(w));
    match w {
        Some(k) => FactValue::Int(k),
        None => FactValue::Float(bits),
    }
}

/// What adding `amount` to the value that a read gave writes.
pub fn sum_value<F: Fn(Request) -> Answer>(current: Option<&FactValue>, amount: u64, ask: &F) -> (written:
    Option<FactValue>)
    requires
        forall|any: Request| call_requires(*ask, (any,)),
    ensures
        summed(*ask, read_view(current), amount, write_view(written)),
{
    match current {
        Some(FactValue::Int(i)) => {
            let w = ask_integer(ask, Request::Whole(amount));
            assert(step(w));
            match w {
                Some(k) => Some(FactValue::Int(i.wrapping_add(k))),
                None => {
                    let x = ask_number(ask, Request::FromInt(*i));
                    assert(step(x));
                    match x {
                        None => None,
                        Some(xb) => {
                            let s = ask_number(ask, Request::Apply(BinaryOp::Plus, xb, amount));
                            assert(step(s));
                            match s {
                                Some(b) => Some(FactValue::Float(b)),
                                None => None,
                            }
                        },
                    }
                },
            }
        },
        Some(FactValue::Float(f)) => {
            let s = ask_number(ask, Request::Apply(BinaryOp::Plus, *f, amount));
            assert(step(s));
            match s {
                Some(b) => Some(FactValue::Float(b)),
                None => None,
            }
        },
        _ => {
            let v = whole_or_float_value(amount, ask);
            assert(step(v@));
            Some(v)
        },
    }
}

/// What an operation on the value that a read gave writes.
pub fn scaled_value<F: Fn(Request) -> Answer>(current: Option<&FactValue>, how: Scaling, ask: &F) -> (written:
    Option<FactValue>)
    requires
        forall|any: Request| call_requires(*ask, (any,)),
    ensures
        scaled(*ask, read_view(current), how, write_view(written)),
{
    match current {
        Some(FactValue::Int(i)) => {
            let x = ask_number(ask, Request::FromInt(*i));
            assert(step(x));
            match x {
                None => None,
                Some(xb) => {
                    let p = ask_number(ask, how.request(xb));
                    assert(step(p));
                    match p {
                        None => None,
                        Some(pb) => {
                            let v = whole_or_float_value(pb, ask);
                            assert(step(v@));
                            Some(v)
                        },
                    }
                },
            }
        },
        Some(FactValue::Float(f)) => {
            let p = ask_number(ask, how.request(*f));
            assert(step(p));
            match p {
                Some(b) => Some(FactValue::Float(b)),
                None => None,
            }
        },
        _ => None,
    }
}

impl LayeredFactDatabase {
    /// Writes a value under the key in the local layer, if there is one.
    fn store(&mut self, key: &str, written: Option<FactValue>)
        ensures
            final(self).local_view() == stored(old(self).local_view(), key@, write_view(written)),
            final(self).global_view() == old(self).global_view(),
    {
        match written {
            Some(v) => self.set_local(key, v),
            None => {},
        }
    }

    /// Adds an amount to the number that a read of `key` gives, whichever
    /// numeric variant it is, and writes the sum to the local layer. Where
    /// the read gives no number the amount itself is written.
    pub fn add<F: Fn(Request) -> Answer>(&mut self, key: &str, amount: u64, ask: &F)
        requires
            forall|any: Request| call_requires(*ask, (any,)),
        ensures
            final(self).global_view() == old(self).global_view(),
            exists|written: Option<FactData>|
                #[trigger] step(written) && summed(
                    *ask,
                    seen_at(old(self)@, key@),
                    amount,
                    written,
                ) && final(self).local_view() == stored(old(self).local_view(), key@, written),
    {
        let written = sum_value(self.get_by_str(key), amount, ask);
        assert(step(write_view(written)));
        self.store(key, written);
    }

    /// Subtracts an amount: adds its negative.
    pub fn sub<F: Fn(Request) -> Answer>(&mut self, key: &str, amount: u64, ask: &F)
        requires
            forall|any: Request| call_requires(*ask, (any,)),
        ensures
            final(self).global_view() == old(self).global_view(),
            exists|written: Option<FactData>|
                #[trigger] step(written) && summed(
                    *ask,
                    seen_at(old(self)@, key@),
                    negated(amount),
                    written,
                ) && final(self).local_view() == stored(old(self).local_view(), key@, written),
    {
        self.add(key, amount ^ 0x8000_0000_0000_0000, ask);
    }

    /// Multiplies the number that a read of `key` gives by a factor and
    /// writes the product to the local layer. Nothing changes where the
    /// read gives no number.
    pub fn mul<F: Fn(Request) -> Answer>(&mut self, key: &str, factor: u64, ask: &F)
        requires
            forall|any: Request| call_requires(*ask, (any,)),
        ensures
            final(self).global_view() == old(self).global_view(),
            exists|written: Option<FactData>|
                #[trigger] step(written) && scaled(
                    *ask,
                    seen_at(old(self)@, key@),
                    Scaling::Times(factor),
                    written,
                ) && final(self).local_view() == stored(old(self).local_view(), key@, written),
    {
        let written = scaled_value(self.get_by_str(key), Scaling::Times(factor), ask);
        assert(step(write_view(written)));
        self.store(key, written);
    }

    /// Divides the number that a read of `key` gives by a divisor and writes
    /// the quotient to the local layer. A division by zero is no error: it
    /// sets the fact to the integer 0, whatever was there. Else nothing
    /// changes where the read gives no number.
    pub fn div<F: Fn(Request) -> Answer>(&mut self, key: &str, divisor: u64, ask: &F)
        requires
            forall|any: Request| call_requires(*ask, (any,)),
        ensures
            final(self).global_view() == old(self).global_view(),
            is_zero_bits(divisor) ==> final(self).local_view() == old(self).local_view().insert(
                key@,
                FactData::Int(0),
            ),
            !is_zero_bits(divisor) ==> exists|written: Option<FactData>|
                #[trigger] step(written) && scaled(
                    *ask,
                    seen_at(old(self)@, key@),
                    Scaling::Over(divisor),
                    written,
                ) && final(self).local_view() == stored(old(self).local_view(), key@, written),
    {
        if zero_bits(divisor) {
            self.set_local(key, FactValue::Int(0));
            return;
        }
        let written = scaled_value(self.get_by_str(key), Scaling::Over(divisor), ask);
        assert(step(write_view(written)));
        self.store(key, written);
    }

    /// Brings the number that a read of `key` gives into the range from
    /// `min` to `max` and writes it to the local layer. Nothing changes
    /// where the read gives no number.
    pub fn clamp<F: Fn(Request) -> Answer>(&mut self, key: &str, min: u64, max: u64, ask: &F)
        requires
            forall|any: Request| call_requires(*ask, (any,)),
        ensures
            final(self).global_view() == old(self).global_view(),
            exists|written: Option<FactData>|
                #[trigger] step(written) && scaled(
                    *ask,
                    seen_at(old(self)@, key@),
                    Scaling::Between(min, max),
                    written,
                ) && final(self).local_view() == stored(old(self).local_view(), key@, written),
    {
        let written = scaled_value(self.get_by_str(key), Scaling::Between(min, max), ask);
        assert(step(write_view(written)));
        self.store(key, written);
    }
}

/// Whether `r` is the value of an expression as a fact value: an `Int`
/// where the value is less in size than 2 to the power 63 and the caller
/// answers that it is whole, else a `Float`; nothing where the expression
/// has no value.
pub open spec fn as_fact<F: Fn(Request) -> Answer>(
    ask: F,
    value: Option<u64>,
    r: Option<FactData>,
) -> bool {
    match value {
        None => r.is_none(),
        Some(bits) => if fits_integer(bits) {
            exists|v: FactData| #[trigger] step(v) && whole_or_float(ask, bits, v) && r == Some(v)
        } else {
            r == Some(FactData::Float(bits))
        },
    }
}

/// The value of an expression over the facts, as a fact value.
pub fn evaluate_expr_to_fact<F: Fn(Request) -> Answer>(
    expr: &str,
    db: &LayeredFactDatabase,
    ask: &F,
) -> (r: Option<FactValue>)
    requires
        forall|any: Request| call_requires(*ask, (any,)),
    ensures
        match compiled(expr@, db@) {
            Some(tree) => exists|value: Option<u64>|
                #[trigger] step(value) && computes(*ask, tree, value) && as_fact(
                    *ask,
                    value,
                    write_view(r),
                ),
            None => r.is_none(),
        },
{
    let value = evaluate_expr(expr, db, ask);
    assert(step(value));
    match value {
        None => None,
        Some(bits) => {
            if (bits & 0x7fff_ffff_ffff_ffff) < 0x43e0_0000_0000_0000 {
                let v = whole_or_float_value(bits, ask);
                assert(step(v@));
                Some(v)
            } else {
                Some(FactValue::Float(bits))
            }
        },
    }
}

} // verus!
