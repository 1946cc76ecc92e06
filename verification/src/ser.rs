//! The serialization engine: a value and the layout of its record go in,
//! bytes come out.
//!
//! Fields are written in declared order.  A counted field writes its count
//! header first, then its elements.  The first value that cannot be packed
//! ends the serialization with an error that names the field.

use vstd::prelude::*;
use crate::codec::{layouts_of, Arity, FieldCodec, ItemCodec, ScalarKind};
use crate::error::{EncodeFault, Place, SerializationError};
use crate::value::{lemma_models, models, Value, ValueModel};
use crate::wire::{
    i16_bytes,
    i32_bytes,
    i64_bytes,
    i8_bytes,
    push_i16,
    push_i32,
    push_i8,
    push_u16,
    push_u32,
    push_u8,
    u16_bytes,
    u24_bytes,
    u32_bytes,
};

verus! {

/// The error of a fault at a place.
pub open spec fn fault_at(place: Place, fault: EncodeFault) -> SerializationError {
    SerializationError { place, fault }
}

/// The wire form of a scalar of the given kind, or why it has none.
pub open spec fn scalar_wire(kind: ScalarKind, value: ValueModel) -> Result<Seq<u8>, EncodeFault> {
    match (kind, value) {
        (ScalarKind::Uint8, ValueModel::Uint8(v)) => Ok(seq![v]),
        (ScalarKind::Int8, ValueModel::Int8(v)) => Ok(i8_bytes(v)),
        (ScalarKind::Uint16, ValueModel::Uint16(v)) => Ok(u16_bytes(v)),
        (ScalarKind::Int16, ValueModel::Int16(v)) => Ok(i16_bytes(v)),
        (ScalarKind::Uint24, ValueModel::Uint24(v)) => if v < 0x100_0000 {
            Ok(u24_bytes(v))
        } else {
            Err(EncodeFault::Uint24OutOfRange(v))
        },
        (ScalarKind::Uint32, ValueModel::Uint32(v)) => Ok(u32_bytes(v)),
        (ScalarKind::Int32, ValueModel::Int32(v)) => Ok(i32_bytes(v)),
        (ScalarKind::Fixed, ValueModel::Fixed(v)) => Ok(i32_bytes(v)),
        (ScalarKind::F2Dot14, ValueModel::F2Dot14(v)) => if i16::MIN <= v <= i16::MAX {
            Ok(i16_bytes(v as i16))
        } else {
            Err(EncodeFault::F2Dot14OutOfRange(v))
        },
        (ScalarKind::Version16Dot16, ValueModel::Version(v)) => Ok(u32_bytes(v)),
        (ScalarKind::LongDateTime, ValueModel::Date(v)) => Ok(i64_bytes(v)),
        _ => Err(EncodeFault::TypeMismatch),
    }
}

/// The wire form of an offset that must not be zero.
pub open spec fn offset_wire(distance: int, bytes: Seq<u8>) -> Result<Seq<u8>, EncodeFault> {
    if distance != 0 {
        Ok(bytes)
    } else {
        Err(EncodeFault::NullOffset)
    }
}

/// `result`, with a fault turned into an error at `place`.
pub open spec fn placed(place: Place, result: Result<Seq<u8>, EncodeFault>) -> Result<
    Seq<u8>,
    SerializationError,
> {
    match result {
        Ok(bytes) => Ok(bytes),
        Err(fault) => Err(fault_at(place, fault)),
    }
}

/// `rest` with `front` before it, where `rest` is a success.
pub open spec fn after(front: Seq<u8>, rest: Result<Seq<u8>, SerializationError>) -> Result<
    Seq<u8>,
    SerializationError,
> {
    match rest {
        Ok(bytes) => Ok(front + bytes),
        Err(e) => Err(e),
    }
}

/// The wire form of one item.  `bound` is the index of the record whose
/// field holds the item: only records before it can be embedded.
pub open spec fn item_wire(
    layouts: Seq<Seq<FieldCodec>>,
    bound: int,
    item: ItemCodec,
    value: ValueModel,
    place: Place,
) -> Result<Seq<u8>, SerializationError>
    decreases bound, 0int, 0int,
{
    match item {
        ItemCodec::Scalar(kind) => placed(place, scalar_wire(kind, value)),
        ItemCodec::Offset16 => match value {
            ValueModel::Offset16(d) => placed(place, offset_wire(d as int, u16_bytes(d))),
            _ => Err(fault_at(place, EncodeFault::TypeMismatch)),
        },
        ItemCodec::Offset32 => match value {
            ValueModel::Offset32(d) => placed(place, offset_wire(d as int, u32_bytes(d))),
            _ => Err(fault_at(place, EncodeFault::TypeMismatch)),
        },
        ItemCodec::Maybe => match value {
            ValueModel::Maybe(Some(d)) => placed(place, offset_wire(d as int, u16_bytes(d))),
            ValueModel::Maybe(None) => Ok(u16_bytes(0)),
            _ => Err(fault_at(place, EncodeFault::TypeMismatch)),
        },
        ItemCodec::Record(j) => if j < bound && j < layouts.len() {
            match value {
                ValueModel::Record(values) => if values.len() == layouts[j as int].len() {
                    fields_wire(layouts, j as int, values, 0)
                } else {
                    Err(fault_at(place, EncodeFault::TypeMismatch))
                },
                _ => Err(fault_at(place, EncodeFault::TypeMismatch)),
            }
        } else {
            Err(fault_at(place, EncodeFault::MalformedSchema))
        },
    }
}

/// The wire forms of the items from `from` on, one after the other.
pub open spec fn items_wire(
    layouts: Seq<Seq<FieldCodec>>,
    bound: int,
    item: ItemCodec,
    values: Seq<ValueModel>,
    from: int,
    place: Place,
) -> Result<Seq<u8>, SerializationError>
    decreases bound, 1int, values.len() - from,
{
    if from < 0 || from >= values.len() {
        Ok(Seq::empty())
    } else {
        match item_wire(layouts, bound, item, values[from], place) {
            Err(e) => Err(e),
            Ok(head) => after(head, items_wire(layouts, bound, item, values, from + 1, place)),
        }
    }
}

/// The wire form of a field: one item, or a count header and that many items.
pub open spec fn field_wire(
    layouts: Seq<Seq<FieldCodec>>,
    bound: int,
    codec: FieldCodec,
    value: ValueModel,
    place: Place,
) -> Result<Seq<u8>, SerializationError>
    decreases bound, 2int, 0int,
{
    match codec.arity {
        Arity::One => item_wire(layouts, bound, codec.item, value, place),
        Arity::Counted16 => match value {
            ValueModel::List(values) => if values.len() <= 0xFFFF {
                after(
                    u16_bytes(values.len() as u16),
                    items_wire(layouts, bound, codec.item, values, 0, place),
                )
            } else {
                Err(fault_at(place, EncodeFault::CountOutOfRange(values.len() as usize)))
            },
            _ => Err(fault_at(place, EncodeFault::TypeMismatch)),
        },
        Arity::Counted32 => match value {
            ValueModel::List(values) => if values.len() <= 0xFFFF_FFFF {
                after(
                    u32_bytes(values.len() as u32),
                    items_wire(layouts, bound, codec.item, values, 0, place),
                )
            } else {
                Err(fault_at(place, EncodeFault::CountOutOfRange(values.len() as usize)))
            },
            _ => Err(fault_at(place, EncodeFault::TypeMismatch)),
        },
    }
}

/// The wire forms of the fields of record `index` from field `from` on, one
/// after the other.
pub open spec fn fields_wire(
    layouts: Seq<Seq<FieldCodec>>,
    index: int,
    values: Seq<ValueModel>,
    from: int,
) -> Result<Seq<u8>, SerializationError>
    decreases index, 3int, values.len() - from,
{
    if from < 0 || from >= values.len() {
        Ok(Seq::empty())
    } else {
        match field_wire(
            layouts,
            index,
            layouts[index][from],
            values[from],
            Place::Field { record: index as usize, field: from as usize },
        ) {
            Err(e) => Err(e),
            Ok(head) => after(head, fields_wire(layouts, index, values, from + 1)),
        }
    }
}

/// The wire form of the fields of record `index`, given one value per field.
pub open spec fn record_fields_wire(
    layouts: Seq<Seq<FieldCodec>>,
    index: int,
    values: Seq<ValueModel>,
) -> Result<Seq<u8>, SerializationError> {
    item_wire(
        layouts,
        index + 1,
        ItemCodec::Record(index as usize),
        ValueModel::Record(values),
        Place::Value,
    )
}

/// The wire form of a value as record `index` of a schema.
pub open spec fn record_wire(layouts: Seq<Seq<FieldCodec>>, index: int, value: ValueModel)
    -> Result<Seq<u8>, SerializationError> {
    item_wire(layouts, index + 1, ItemCodec::Record(index as usize), value, Place::Value)
}

/// `new` is `old` with something appended.
pub open spec fn extends(new: Seq<u8>, old: Seq<u8>) -> bool {
    old.len() <= new.len() && new.subrange(0, old.len() as int) == old
}

/// Appending loses nothing, and what extends an extension of a buffer
/// extends the buffer.
pub proof fn lemma_extends(a: Seq<u8>, b: Seq<u8>, c: Seq<u8>)
    ensures
        extends(a, a),
        extends(a + b, a),
        extends(c, a + b) ==> extends(c, a),
{
    assert(a.subrange(0, a.len() as int) =~= a);
    assert((a + b).subrange(0, a.len() as int) =~= a);
    if extends(c, a + b) {
        let ab = a + b;
        assert forall|i: int| 0 <= i < a.len() implies c[i] == a[i] by {
            assert(c.subrange(0, ab.len() as int)[i] == ab[i]);
        }
        assert(c.subrange(0, a.len() as int) =~= a);
    }
}

/// What a step of the encoder leaves in its buffer: on success the bytes of
/// `expected` appended; on failure the error of `expected`, and nothing of
/// what the buffer held before is lost.
pub open spec fn wrote(
    expected: Result<Seq<u8>, SerializationError>,
    r: Result<(), SerializationError>,
    before: Seq<u8>,
    now: Seq<u8>,
) -> bool {
    match expected {
        Ok(bytes) => r.is_ok() && now == before + bytes,
        Err(e) => r == Err::<(), SerializationError>(e) && extends(now, before),
    }
}

/// Give an error of a single value its place.
fn at(place: Place, r: Result<(), SerializationError>) -> (placed: Result<(), SerializationError>)
    ensures
        match r {
            Ok(_) => placed.is_ok(),
            Err(e) => placed == Err::<(), SerializationError>(fault_at(place, e.fault)),
        },
{
    match r {
        Ok(_) => Ok(()),
        Err(e) => Err(SerializationError { place, fault: e.fault }),
    }
}

/// Append the wire form of a scalar.
fn encode_scalar(kind: ScalarKind, value: &Value, place: Place, data: &mut Vec<u8>) -> (r: Result<
    (),
    SerializationError,
>)
    ensures
        wrote(placed(place, scalar_wire(kind, value@)), r, old(data)@, final(data)@),
{
    let ghost before = data@;
    let r = match (kind, value) {
        (ScalarKind::Uint8, Value::Uint8(v)) => {
            push_u8(data, *v);
            Ok(())
        },
        (ScalarKind::Int8, Value::Int8(v)) => {
            push_i8(data, *v);
            Ok(())
        },
        (ScalarKind::Uint16, Value::Uint16(v)) => {
            push_u16(data, *v);
            Ok(())
        },
        (ScalarKind::Int16, Value::Int16(v)) => {
            push_i16(data, *v);
            Ok(())
        },
        (ScalarKind::Uint24, Value::Uint24(v)) => at(place, v.to_bytes(data)),
        (ScalarKind::Uint32, Value::Uint32(v)) => {
            push_u32(data, *v);
            Ok(())
        },
        (ScalarKind::Int32, Value::Int32(v)) => {
            push_i32(data, *v);
            Ok(())
        },
        (ScalarKind::Fixed, Value::Fixed(v)) => at(place, v.to_bytes(data)),
        (ScalarKind::F2Dot14, Value::F2Dot14(v)) => at(place, v.to_bytes(data)),
        (ScalarKind::Version16Dot16, Value::Version(v)) => at(place, v.to_bytes(data)),
        (ScalarKind::LongDateTime, Value::Date(v)) => at(place, v.to_bytes(data)),
        _ => Err(SerializationError { place, fault: EncodeFault::TypeMismatch }),
    };
    assert(data@.subrange(0, before.len() as int) =~= before);
    r
}

/// Append the wire form of an offset that must not be zero.
fn encode_offset16(distance: u16, place: Place, data: &mut Vec<u8>) -> (r: Result<
    (),
    SerializationError,
>)
    ensures
        wrote(
            placed(place, offset_wire(distance as int, u16_bytes(distance))),
            r,
            old(data)@,
            final(data)@,
        ),
{
    assert(data@.subrange(0, data@.len() as int) =~= data@);
    if distance == 0 {
        return Err(SerializationError { place, fault: EncodeFault::NullOffset });
    }
    push_u16(data, distance);
    Ok(())
}

/// Append the wire form of one item.
fn encode_item(
    layouts: &Vec<Vec<FieldCodec>>,
    bound: usize,
    item: ItemCodec,
    value: &Value,
    place: Place,
    data: &mut Vec<u8>,
) -> (r: Result<(), SerializationError>)
    ensures
        wrote(
            item_wire(layouts_of(layouts@), bound as int, item, value@, place),
            r,
            old(data)@,
            final(data)@,
        ),
    decreases bound, 0int, 0int,
{
    proof {
        lemma_extends(data@, Seq::empty(), data@);
        if let Value::Record(values) = value {
            lemma_models(values@);
        }
    }
    match item {
        ItemCodec::Scalar(kind) => encode_scalar(kind, value, place, data),
        ItemCodec::Offset16 => match value {
            Value::Offset16(d) => encode_offset16(*d, place, data),
            _ => Err(SerializationError { place, fault: EncodeFault::TypeMismatch }),
        },
        ItemCodec::Offset32 => match value {
            Value::Offset32(d) => {
                if *d == 0 {
                    return Err(SerializationError { place, fault: EncodeFault::NullOffset });
                }
                push_u32(data, *d);
                Ok(())
            },
            _ => Err(SerializationError { place, fault: EncodeFault::TypeMismatch }),
        },
        ItemCodec::Maybe => match value {
            Value::Maybe(Some(d)) => encode_offset16(*d, place, data),
            Value::Maybe(None) => {
                push_u16(data, 0);
                Ok(())
            },
            _ => Err(SerializationError { place, fault: EncodeFault::TypeMismatch }),
        },
        ItemCodec::Record(j) => {
            if j < bound && j < layouts.len() {
                match value {
                    Value::Record(values) => {
                        if values.len() == layouts[j].len() {
                            encode_fields(layouts, j, values, data)
                        } else {
                            Err(SerializationError { place, fault: EncodeFault::TypeMismatch })
                        }
                    },
                    _ => Err(SerializationError { place, fault: EncodeFault::TypeMismatch }),
                }
            } else {
                Err(SerializationError { place, fault: EncodeFault::MalformedSchema })
            }
        },
    }
}

/// Append the wire forms of the items of a counted field.
fn encode_items(
    layouts: &Vec<Vec<FieldCodec>>,
    bound: usize,
    item: ItemCodec,
    values: &Vec<Value>,
    place: Place,
    data: &mut Vec<u8>,
) -> (r: Result<(), SerializationError>)
    ensures
        wrote(
            items_wire(layouts_of(layouts@), bound as int, item, models(values@), 0, place),
            r,
            old(data)@,
            final(data)@,
        ),
    decreases bound, 1int, 0int,
{
    let ghost all = layouts_of(layouts@);
    let ghost ms = models(values@);
    let ghost before = data@;
    let ghost written = Seq::<u8>::empty();
    proof {
        lemma_models(values@);
        assert(before + written =~= before);
        assert(written + Seq::<u8>::empty() =~= written);
    }
    let mut k: usize = 0;
    while k < values.len()
        invariant
            all == layouts_of(layouts@),
            ms == models(values@),
            ms.len() == values@.len(),
            forall|i: int| 0 <= i < values@.len() ==> #[trigger] ms[i] == values@[i]@,
            k <= values@.len(),
            before == old(data)@,
            data@ == before + written,
            items_wire(all, bound as int, item, ms, 0, place) == after(
                written,
                items_wire(all, bound as int, item, ms, k as int, place),
            ),
        decreases values@.len() - k,
    {
        match encode_item(layouts, bound, item, &values[k], place, data) {
            Err(e) => {
                proof {
                    lemma_extends(before, written, data@);
                }
                return Err(e);
            },
            Ok(_) => {
                proof {
                    let head = item_wire(all, bound as int, item, ms[k as int], place)->Ok_0;
                    let rest = items_wire(all, bound as int, item, ms, k + 1, place);
                    assert(data@ =~= before + (written + head));
                    if let Ok(tail) = rest {
                        assert(written + (head + tail) =~= (written + head) + tail);
                    }
                    written = written + head;
                }
                k = k + 1;
            },
        }
    }
    proof {
        assert(written + Seq::<u8>::empty() =~= written);
    }
    Ok(())
}

/// Append the wire form of a field.
fn encode_field(
    layouts: &Vec<Vec<FieldCodec>>,
    bound: usize,
    codec: FieldCodec,
    value: &Value,
    place: Place,
    data: &mut Vec<u8>,
) -> (r: Result<(), SerializationError>)
    ensures
        wrote(
            field_wire(layouts_of(layouts@), bound as int, codec, value@, place),
            r,
            old(data)@,
            final(data)@,
        ),
    decreases bound, 2int, 0int,
{
    let ghost before = data@;
    assert(data@.subrange(0, data@.len() as int) =~= data@);
    match codec.arity {
        Arity::One => encode_item(layouts, bound, codec.item, value, place, data),
        Arity::Counted16 => match value {
            Value::List(values) => {
                proof {
                    lemma_models(values@);
                }
                if values.len() > 0xFFFF {
                    return Err(
                        SerializationError {
                            place,
                            fault: EncodeFault::CountOutOfRange(values.len()),
                        },
                    );
                }
                push_u16(data, values.len() as u16);
                let r = encode_items(layouts, bound, codec.item, values, place, data);
                proof {
                    let head = u16_bytes(values@.len() as u16);
                    match items_wire(
                        layouts_of(layouts@),
                        bound as int,
                        codec.item,
                        models(values@),
                        0,
                        place,
                    ) {
                        Ok(body) => {
                            assert(data@ =~= before + (head + body));
                        },
                        Err(_) => {
                            lemma_extends(before, head, data@);
                        },
                    }
                }
                r
            },
            _ => Err(SerializationError { place, fault: EncodeFault::TypeMismatch }),
        },
        Arity::Counted32 => match value {
            Value::List(values) => {
                proof {
                    lemma_models(values@);
                }
                if values.len() > 0xFFFF_FFFF {
                    return Err(
                        SerializationError {
                            place,
                            fault: EncodeFault::CountOutOfRange(values.len()),
                        },
                    );
                }
                push_u32(data, values.len() as u32);
                let r = encode_items(layouts, bound, codec.item, values, place, data);
                proof {
                    let head = u32_bytes(values@.len() as u32);
                    match items_wire(
                        layouts_of(layouts@),
                        bound as int,
                        codec.item,
                        models(values@),
                        0,
                        place,
                    ) {
                        Ok(body) => {
                            assert(data@ =~= before + (head + body));
                        },
                        Err(_) => {
                            lemma_extends(before, head, data@);
                        },
                    }
                }
                r
            },
            _ => Err(SerializationError { place, fault: EncodeFault::TypeMismatch }),
        },
    }
}

/// Append the wire forms of the fields of record `index`.
fn encode_fields(
    layouts: &Vec<Vec<FieldCodec>>,
    index: usize,
    values: &Vec<Value>,
    data: &mut Vec<u8>,
) -> (r: Result<(), SerializationError>)
    requires
        index < layouts@.len(),
        values@.len() == layouts@[index as int]@.len(),
    ensures
        wrote(
            fields_wire(layouts_of(layouts@), index as int, models(values@), 0),
            r,
            old(data)@,
            final(data)@,
        ),
    decreases index, 3int, 0int,
{
    let ghost all = layouts_of(layouts@);
    let ghost ms = models(values@);
    let ghost before = data@;
    let ghost written = Seq::<u8>::empty();
    proof {
        lemma_models(values@);
        assert(before + written =~= before);
    }
    let layout = &layouts[index];
    let mut k: usize = 0;
    while k < values.len()
        invariant
            all == layouts_of(layouts@),
            index < layouts@.len(),
            layout == layouts@[index as int],
            all[index as int] == layout@,
            values@.len() == layout@.len(),
            ms == models(values@),
            ms.len() == values@.len(),
            forall|i: int| 0 <= i < values@.len() ==> #[trigger] ms[i] == values@[i]@,
            k <= values@.len(),
            before == old(data)@,
            data@ == before + written,
            fields_wire(all, index as int, ms, 0) == after(
                written,
                fields_wire(all, index as int, ms, k as int),
            ),
        decreases values@.len() - k,
    {
        let place = Place::Field { record: index, field: k };
        match encode_field(layouts, index, layout[k], &values[k], place, data) {
            Err(e) => {
                proof {
                    lemma_extends(before, written, data@);
                }
                return Err(e);
            },
            Ok(_) => {
                proof {
                    let head = field_wire(
                        all,
                        index as int,
                        all[index as int][k as int],
                        ms[k as int],
                        place,
                    )->Ok_0;
                    let rest = fields_wire(all, index as int, ms, k + 1);
                    assert(data@ =~= before + (written + head));
                    if let Ok(tail) = rest {
                        assert(written + (head + tail) =~= (written + head) + tail);
                    }
                    written = written + head;
                }
                k = k + 1;
            },
        }
    }
    proof {
        assert(written + Seq::<u8>::empty() =~= written);
    }
    Ok(())
}

/// Write the fields of record `index` of a schema, one value per field, in
/// declared order.  The first field whose value cannot be packed ends the
/// writing with an error that names it, and `data` is then left as it was.
pub fn serialize_fields(
    layouts: &Vec<Vec<FieldCodec>>,
    index: usize,
    values: &Vec<Value>,
    data: &mut Vec<u8>,
) -> (r: Result<(), SerializationError>)
    ensures
        match record_fields_wire(layouts_of(layouts@), index as int, models(values@)) {
            Ok(bytes) => r.is_ok() && final(data)@ == old(data)@ + bytes,
            Err(e) => r == Err::<(), SerializationError>(e) && final(data)@ == old(data)@,
        },
{
    let ghost before = data@;
    proof {
        lemma_models(values@);
    }
    if index >= layouts.len() {
        return Err(
            SerializationError { place: Place::Value, fault: EncodeFault::MalformedSchema },
        );
    }
    if values.len() != layouts[index].len() {
        return Err(SerializationError { place: Place::Value, fault: EncodeFault::TypeMismatch });
    }
    let start = data.len();
    match encode_fields(layouts, index, values, data) {
        Ok(_) => Ok(()),
        Err(e) => {
            data.truncate(start);
            assert(data@ =~= before);
            Err(e)
        },
    }
}

/// The wire form of a value as record `index` of a schema.  No bytes are
/// returned unless every field could be packed.
pub fn to_bytes(layouts: &Vec<Vec<FieldCodec>>, index: usize, value: &Value) -> (r: Result<
    Vec<u8>,
    SerializationError,
>)
    ensures
        match record_wire(layouts_of(layouts@), index as int, value@) {
            Ok(bytes) => r matches Ok(data) && data@ == bytes,
            Err(e) => r == Err::<Vec<u8>, SerializationError>(e),
        },
{
    match value {
        Value::Record(values) => {
            let mut data: Vec<u8> = Vec::new();
            match serialize_fields(layouts, index, values, &mut data) {
                Ok(_) => {
                    assert(data@ =~= record_wire(
                        layouts_of(layouts@),
                        index as int,
                        value@,
                    )->Ok_0);
                    Ok(data)
                },
                Err(e) => Err(e),
            }
        },
        _ => {
            if index >= layouts.len() {
                Err(SerializationError { place: Place::Value, fault: EncodeFault::MalformedSchema })
            } else {
                Err(SerializationError { place: Place::Value, fault: EncodeFault::TypeMismatch })
            }
        },
    }
}

} // verus!
