//! Values as the schema-driven engine sees them: a scalar of one of the wire
//! types, a raw offset, a counted sequence, or a record of fields.

use vstd::prelude::*;
use crate::types::{uint24, Fixed, Version16Dot16, F2DOT14, LONGDATETIME};

verus! {

/// A value that a record schema can describe.
#[derive(Debug, PartialEq, Eq)]
pub enum Value {
    /// An unsigned 8-bit integer.
    Uint8(u8),
    /// A signed 8-bit integer.
    Int8(i8),
    /// An unsigned 16-bit integer.
    Uint16(u16),
    /// A signed 16-bit integer.
    Int16(i16),
    /// An unsigned 24-bit integer.
    Uint24(uint24),
    /// An unsigned 32-bit integer.
    Uint32(u32),
    /// A signed 32-bit integer.
    Int32(i32),
    /// A 16.16 fixed-point number.
    Fixed(Fixed),
    /// A 2.14 fixed-point number.
    F2Dot14(F2DOT14),
    /// A packed version.
    Version(Version16Dot16),
    /// A date.
    Date(LONGDATETIME),
    /// A 16-bit distance to a subtable; never zero.
    Offset16(u16),
    /// A 32-bit distance to a subtable; never zero.
    Offset32(u32),
    /// An optional 16-bit distance to a subtable; `None` is zero on the wire.
    Maybe(Option<u16>),
    /// The elements of a counted sequence.
    List(Vec<Value>),
    /// The fields of a record, in wire order.
    Record(Vec<Value>),
}

/// The mathematical content of a [`Value`].
pub enum ValueModel {
    Uint8(u8),
    Int8(i8),
    Uint16(u16),
    Int16(i16),
    Uint24(u32),
    Uint32(u32),
    Int32(i32),
    Fixed(i32),
    F2Dot14(i32),
    Version(u32),
    Date(i64),
    Offset16(u16),
    Offset32(u32),
    Maybe(Option<u16>),
    List(Seq<ValueModel>),
    Record(Seq<ValueModel>),
}

impl View for Value {
    type V = ValueModel;

    open spec fn view(&self) -> ValueModel {
        model_of(*self)
    }
}

/// The mathematical content of a value.
pub open spec fn model_of(value: Value) -> ValueModel
    decreases value,
{
    match value {
        Value::Uint8(v) => ValueModel::Uint8(v),
        Value::Int8(v) => ValueModel::Int8(v),
        Value::Uint16(v) => ValueModel::Uint16(v),
        Value::Int16(v) => ValueModel::Int16(v),
        Value::Uint24(v) => ValueModel::Uint24(v@),
        Value::Uint32(v) => ValueModel::Uint32(v),
        Value::Int32(v) => ValueModel::Int32(v),
        Value::Fixed(v) => ValueModel::Fixed(v@),
        Value::F2Dot14(v) => ValueModel::F2Dot14(v@),
        Value::Version(v) => ValueModel::Version(v@),
        Value::Date(v) => ValueModel::Date(v@),
        Value::Offset16(v) => ValueModel::Offset16(v),
        Value::Offset32(v) => ValueModel::Offset32(v),
        Value::Maybe(v) => ValueModel::Maybe(v),
        Value::List(items) => ValueModel::List(models(items@)),
        Value::Record(fields) => ValueModel::Record(models(fields@)),
    }
}

/// The models of a sequence of values.
pub open spec fn models(values: Seq<Value>) -> Seq<ValueModel>
    decreases values,
{
    if values.len() == 0 {
        Seq::empty()
    } else {
        models(values.drop_last()).push(model_of(values.last()))
    }
}

/// The models of a sequence of values are the models of its elements, in order.
pub proof fn lemma_models(values: Seq<Value>)
    ensures
        models(values).len() == values.len(),
        forall|i: int| 0 <= i < values.len() ==> #[trigger] models(values)[i] == values[i]@,
    decreases values.len(),
{
    if values.len() > 0 {
        lemma_models(values.drop_last());
    }
}

/// The models of a sequence with one more value are the models of the
/// sequence with the model of that value.
pub proof fn lemma_models_push(values: Seq<Value>, value: Value)
    ensures
        models(values.push(value)) == models(values).push(value@),
{
    assert(values.push(value).drop_last() =~= values);
}

/// A copy of each value of a sequence.
fn clone_values(values: &Vec<Value>) -> (copies: Vec<Value>)
    ensures
        models(copies@) == models(values@),
    decreases values,
{
    let mut copies: Vec<Value> = Vec::new();
    let mut i: usize = 0;
    assert(values@.take(0) =~= copies@);
    while i < values.len()
        invariant
            i <= values@.len(),
            models(copies@) == models(values@.take(i as int)),
        decreases values@.len() - i,
    {
        let copy = values[i].clone();
        proof {
            lemma_models_push(copies@, copy);
            lemma_models_push(values@.take(i as int), values@[i as int]);
            assert(values@.take(i as int).push(values@[i as int]) =~= values@.take(i + 1));
        }
        copies.push(copy);
        i = i + 1;
    }
    assert(values@.take(values@.len() as int) =~= values@);
    copies
}

impl Clone for Value {
    /// A copy with the same content.
    fn clone(&self) -> (copy: Self)
        ensures
            copy@ == self@,
        decreases self,
    {
        match self {
            Value::Uint8(v) => Value::Uint8(*v),
            Value::Int8(v) => Value::Int8(*v),
            Value::Uint16(v) => Value::Uint16(*v),
            Value::Int16(v) => Value::Int16(*v),
            Value::Uint24(v) => Value::Uint24(*v),
            Value::Uint32(v) => Value::Uint32(*v),
            Value::Int32(v) => Value::Int32(*v),
            Value::Fixed(v) => Value::Fixed(*v),
            Value::F2Dot14(v) => Value::F2Dot14(*v),
            Value::Version(v) => Value::Version(*v),
            Value::Date(v) => Value::Date(*v),
            Value::Offset16(v) => Value::Offset16(*v),
            Value::Offset32(v) => Value::Offset32(*v),
            Value::Maybe(v) => Value::Maybe(*v),
            Value::List(items) => Value::List(clone_values(items)),
            Value::Record(fields) => Value::Record(clone_values(fields)),
        }
    }
}

} // verus!
