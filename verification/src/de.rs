//! The deserialization engine: bytes and the layout of a record go in, a
//! value comes out.
//!
//! Fields are read in declared order, each moving the cursor by its wire
//! width.  A counted field reads its count header, then exactly that many
//! elements.  A read that finds the buffer exhausted ends the decoding with
//! an error that names the field; nothing is read past the end of the
//! buffer.

use vstd::prelude::*;
use crate::codec::{layouts_of, Arity, FieldCodec, ItemCodec, ScalarKind};
use crate::error::{DecodeFault, DeserializationError, Place};
use crate::reader::ReaderContext;
use crate::types::{uint24, Fixed, Version16Dot16, F2DOT14, LONGDATETIME};
use crate::value::{lemma_models_push, models, Value, ValueModel};
use crate::wire::{has_bytes, i16_at, i32_at, i64_at, i8_at, u16_at, u24_at, u32_at};

verus! {

/// The error of a fault at a place.
pub open spec fn fault_at(place: Place, fault: DecodeFault) -> DeserializationError {
    DeserializationError { place, fault }
}

/// The number of bytes of a scalar of the given kind.
pub open spec fn scalar_width(kind: ScalarKind) -> int {
    match kind {
        ScalarKind::Uint8 => 1,
        ScalarKind::Int8 => 1,
        ScalarKind::Uint16 => 2,
        ScalarKind::Int16 => 2,
        ScalarKind::Uint24 => 3,
        ScalarKind::Uint32 => 4,
        ScalarKind::Int32 => 4,
        ScalarKind::Fixed => 4,
        ScalarKind::F2Dot14 => 2,
        ScalarKind::Version16Dot16 => 4,
        ScalarKind::LongDateTime => 8,
    }
}

/// The scalar of the given kind whose wire form stands at `pos`.
pub open spec fn scalar_at(kind: ScalarKind, s: Seq<u8>, pos: int) -> ValueModel
    recommends
        has_bytes(s, pos, scalar_width(kind)),
{
    match kind {
        ScalarKind::Uint8 => ValueModel::Uint8(s[pos]),
        ScalarKind::Int8 => ValueModel::Int8(i8_at(s, pos)),
        ScalarKind::Uint16 => ValueModel::Uint16(u16_at(s, pos)),
        ScalarKind::Int16 => ValueModel::Int16(i16_at(s, pos)),
        ScalarKind::Uint24 => ValueModel::Uint24(u24_at(s, pos)),
        ScalarKind::Uint32 => ValueModel::Uint32(u32_at(s, pos)),
        ScalarKind::Int32 => ValueModel::Int32(i32_at(s, pos)),
        ScalarKind::Fixed => ValueModel::Fixed(i32_at(s, pos)),
        ScalarKind::F2Dot14 => ValueModel::F2Dot14(i16_at(s, pos) as i32),
        ScalarKind::Version16Dot16 => ValueModel::Version(u32_at(s, pos)),
        ScalarKind::LongDateTime => ValueModel::Date(i64_at(s, pos)),
    }
}

/// `rest` with `front` before its values, where `rest` is a success.
pub open spec fn chained(
    front: Seq<ValueModel>,
    rest: Result<(Seq<ValueModel>, int), DeserializationError>,
) -> Result<(Seq<ValueModel>, int), DeserializationError> {
    match rest {
        Ok((values, end)) => Ok((front + values, end)),
        Err(e) => Err(e),
    }
}

/// The item that stands at `pos`, and the position after it.  `bound` is the
/// index of the record whose field holds the item: only records before it
/// can be embedded.
pub open spec fn item_read(
    layouts: Seq<Seq<FieldCodec>>,
    bound: int,
    item: ItemCodec,
    s: Seq<u8>,
    pos: int,
    place: Place,
) -> Result<(ValueModel, int), DeserializationError>
    decreases bound, 0int, 0int,
{
    match item {
        ItemCodec::Scalar(kind) => if has_bytes(s, pos, scalar_width(kind)) {
            Ok((scalar_at(kind, s, pos), pos + scalar_width(kind)))
        } else {
            Err(fault_at(place, DecodeFault::ShortRead))
        },
        ItemCodec::Offset16 => if !has_bytes(s, pos, 2) {
            Err(fault_at(place, DecodeFault::ShortRead))
        } else if u16_at(s, pos) == 0 {
            Err(fault_at(place, DecodeFault::NullOffset))
        } else {
            Ok((ValueModel::Offset16(u16_at(s, pos)), pos + 2))
        },
        ItemCodec::Offset32 => if !has_bytes(s, pos, 4) {
            Err(fault_at(place, DecodeFault::ShortRead))
        } else if u32_at(s, pos) == 0 {
            Err(fault_at(place, DecodeFault::NullOffset))
        } else {
            Ok((ValueModel::Offset32(u32_at(s, pos)), pos + 4))
        },
        ItemCodec::Maybe => if !has_bytes(s, pos, 2) {
            Err(fault_at(place, DecodeFault::ShortRead))
        } else if u16_at(s, pos) == 0 {
            Ok((ValueModel::Maybe(None), pos + 2))
        } else {
            Ok((ValueModel::Maybe(Some(u16_at(s, pos))), pos + 2))
        },
        ItemCodec::Record(j) => if j < bound && j < layouts.len() {
            match fields_read(layouts, j as int, 0, s, pos) {
                Ok((values, end)) => Ok((ValueModel::Record(values), end)),
                Err(e) => Err(e),
            }
        } else {
            Err(fault_at(place, DecodeFault::MalformedSchema))
        },
    }
}

/// The `count` items that stand one after the other from `pos` on, and the
/// position after them.
pub open spec fn items_read(
    layouts: Seq<Seq<FieldCodec>>,
    bound: int,
    item: ItemCodec,
    count: nat,
    s: Seq<u8>,
    pos: int,
    place: Place,
) -> Result<(Seq<ValueModel>, int), DeserializationError>
    decreases bound, 1int, count,
{
    if count == 0 {
        Ok((Seq::empty(), pos))
    } else {
        match item_read(layouts, bound, item, s, pos, place) {
            Err(e) => Err(e),
            Ok((head, next)) => chained(
                seq![head],
                items_read(layouts, bound, item, (count - 1) as nat, s, next, place),
            ),
        }
    }
}

/// The field that stands at `pos`, and the position after it: one item, or
/// a count header and that many items.
pub open spec fn field_read(
    layouts: Seq<Seq<FieldCodec>>,
    bound: int,
    codec: FieldCodec,
    s: Seq<u8>,
    pos: int,
    place: Place,
) -> Result<(ValueModel, int), DeserializationError>
    decreases bound, 2int, 0int,
{
    match codec.arity {
        Arity::One => item_read(layouts, bound, codec.item, s, pos, place),
        Arity::Counted16 => if !has_bytes(s, pos, 2) {
            Err(fault_at(place, DecodeFault::ShortRead))
        } else {
            match items_read(
                layouts,
                bound,
                codec.item,
                u16_at(s, pos) as nat,
                s,
                pos + 2,
                place,
            ) {
                Ok((values, end)) => Ok((ValueModel::List(values), end)),
                Err(e) => Err(e),
            }
        },
        Arity::Counted32 => if !has_bytes(s, pos, 4) {
            Err(fault_at(place, DecodeFault::ShortRead))
        } else {
            match items_read(
                layouts,
                bound,
                codec.item,
                u32_at(s, pos) as nat,
                s,
                pos + 4,
                place,
            ) {
                Ok((values, end)) => Ok((ValueModel::List(values), end)),
                Err(e) => Err(e),
            }
        },
    }
}

/// The fields of record `index` from field `from` on, read one after the
/// other from `pos` on, and the position after them.
pub open spec fn fields_read(
    layouts: Seq<Seq<FieldCodec>>,
    index: int,
    from: int,
    s: Seq<u8>,
    pos: int,
) -> Result<(Seq<ValueModel>, int), DeserializationError>
    decreases index, 3int, layouts[index].len() - from,
{
    if from < 0 || from >= layouts[index].len() {
        Ok((Seq::empty(), pos))
    } else {
        match field_read(
            layouts,
            index,
            layouts[index][from],
            s,
            pos,
            Place::Field { record: index as usize, field: from as usize },
        ) {
            Err(e) => Err(e),
            Ok((head, next)) => chained(seq![head], fields_read(layouts, index, from + 1, s, next)),
        }
    }
}

/// The value that stands at `pos` as record `index` of a schema, and the
/// position after it.
pub open spec fn record_read(layouts: Seq<Seq<FieldCodec>>, index: int, s: Seq<u8>, pos: int)
    -> Result<(ValueModel, int), DeserializationError> {
    item_read(layouts, index + 1, ItemCodec::Record(index as usize), s, pos, Place::Value)
}

/// What a step of the decoder gives and where it leaves the cursor: on
/// success the value of `expected`, with the cursor after it; on failure
/// the error of `expected`, with the cursor somewhere in the same buffer.
pub open spec fn got(
    expected: Result<(ValueModel, int), DeserializationError>,
    r: Result<Value, DeserializationError>,
    before: &ReaderContext,
    now: &ReaderContext,
) -> bool {
    match expected {
        Ok((value, end)) => (r matches Ok(v) && v@ == value) && now.moved_to(before, end),
        Err(e) => (r matches Err(x) && x == e) && now.wf() && now.bytes() == before.bytes(),
    }
}

/// As `got`, for a sequence of values.
pub open spec fn got_all(
    expected: Result<(Seq<ValueModel>, int), DeserializationError>,
    r: Result<Vec<Value>, DeserializationError>,
    before: &ReaderContext,
    now: &ReaderContext,
) -> bool {
    match expected {
        Ok((values, end)) => (r matches Ok(v) && models(v@) == values) && now.moved_to(
            before,
            end,
        ),
        Err(e) => (r matches Err(x) && x == e) && now.wf() && now.bytes() == before.bytes(),
    }
}

/// Read a scalar; `None` where the buffer ends before it does.
fn decode_scalar(kind: ScalarKind, c: &mut ReaderContext) -> (r: Option<Value>)
    requires
        old(c).wf(),
    ensures
        r.is_some() == old(c).has(scalar_width(kind)),
        match r {
            Some(v) => v@ == scalar_at(kind, old(c).bytes(), old(c).position())
                && final(c).moved_to(old(c), old(c).position() + scalar_width(kind)),
            None => final(c).moved_to(old(c), old(c).position()),
        },
{
    match kind {
        ScalarKind::Uint8 => match c.read_u8() {
            Some(v) => Some(Value::Uint8(v)),
            None => None,
        },
        ScalarKind::Int8 => match c.read_i8() {
            Some(v) => Some(Value::Int8(v)),
            None => None,
        },
        ScalarKind::Uint16 => match c.read_u16() {
            Some(v) => Some(Value::Uint16(v)),
            None => None,
        },
        ScalarKind::Int16 => match c.read_i16() {
            Some(v) => Some(Value::Int16(v)),
            None => None,
        },
        ScalarKind::Uint24 => match uint24::from_bytes(c) {
            Ok(v) => Some(Value::Uint24(v)),
            Err(_) => None,
        },
        ScalarKind::Uint32 => match c.read_u32() {
            Some(v) => Some(Value::Uint32(v)),
            None => None,
        },
        ScalarKind::Int32 => match c.read_i32() {
            Some(v) => Some(Value::Int32(v)),
            None => None,
        },
        ScalarKind::Fixed => match Fixed::from_bytes(c) {
            Ok(v) => Some(Value::Fixed(v)),
            Err(_) => None,
        },
        ScalarKind::F2Dot14 => match F2DOT14::from_bytes(c) {
            Ok(v) => Some(Value::F2Dot14(v)),
            Err(_) => None,
        },
        ScalarKind::Version16Dot16 => match Version16Dot16::from_bytes(c) {
            Ok(v) => Some(Value::Version(v)),
            Err(_) => None,
        },
        ScalarKind::LongDateTime => match LONGDATETIME::from_bytes(c) {
            Ok(v) => Some(Value::Date(v)),
            Err(_) => None,
        },
    }
}

/// Read one item.
fn decode_item(
    layouts: &Vec<Vec<FieldCodec>>,
    bound: usize,
    item: ItemCodec,
    place: Place,
    c: &mut ReaderContext,
) -> (r: Result<Value, DeserializationError>)
    requires
        old(c).wf(),
    ensures
        got(
            item_read(
                layouts_of(layouts@),
                bound as int,
                item,
                old(c).bytes(),
                old(c).position(),
                place,
            ),
            r,
            old(c),
            final(c),
        ),
    decreases bound, 0int, 0int,
{
    match item {
        ItemCodec::Scalar(kind) => match decode_scalar(kind, c) {
            Some(v) => Ok(v),
            None => Err(DeserializationError { place, fault: DecodeFault::ShortRead }),
        },
        ItemCodec::Offset16 => match c.read_u16() {
            None => Err(DeserializationError { place, fault: DecodeFault::ShortRead }),
            Some(d) => if d == 0 {
                Err(DeserializationError { place, fault: DecodeFault::NullOffset })
            } else {
                Ok(Value::Offset16(d))
            },
        },
        ItemCodec::Offset32 => match c.read_u32() {
            None => Err(DeserializationError { place, fault: DecodeFault::ShortRead }),
            Some(d) => if d == 0 {
                Err(DeserializationError { place, fault: DecodeFault::NullOffset })
            } else {
                Ok(Value::Offset32(d))
            },
        },
        ItemCodec::Maybe => match c.read_u16() {
            None => Err(DeserializationError { place, fault: DecodeFault::ShortRead }),
            Some(d) => if d == 0 {
                Ok(Value::Maybe(None))
            } else {
                Ok(Value::Maybe(Some(d)))
            },
        },
        ItemCodec::Record(j) => {
            if j < bound && j < layouts.len() {
                match decode_fields(layouts, j, c) {
                    Ok(values) => Ok(Value::Record(values)),
                    Err(e) => Err(e),
                }
            } else {
                Err(DeserializationError { place, fault: DecodeFault::MalformedSchema })
            }
        },
    }
}

/// Read `count` items, one after the other.
fn decode_items(
    layouts: &Vec<Vec<FieldCodec>>,
    bound: usize,
    item: ItemCodec,
    count: usize,
    place: Place,
    c: &mut ReaderContext,
) -> (r: Result<Vec<Value>, DeserializationError>)
    requires
        old(c).wf(),
    ensures
        got_all(
            items_read(
                layouts_of(layouts@),
                bound as int,
                item,
                count as nat,
                old(c).bytes(),
                old(c).position(),
                place,
            ),
            r,
            old(c),
            final(c),
        ),
    decreases bound, 1int, 0int,
{
    let ghost all = layouts_of(layouts@);
    let ghost s = c.bytes();
    let ghost start = c.position();
    let mut values: Vec<Value> = Vec::new();
    let mut k: usize = 0;
    proof {
        assert(models(values@) =~= Seq::<ValueModel>::empty());
        if let Ok((tail, end)) = items_read(all, bound as int, item, count as nat, s, start, place) {
            assert(models(values@) + tail =~= tail);
        }
    }
    while k < count
        invariant
            all == layouts_of(layouts@),
            k <= count,
            c.wf(),
            c.bytes() == s,
            s == old(c).bytes(),
            start == old(c).position(),
            items_read(all, bound as int, item, count as nat, s, start, place) == chained(
                models(values@),
                items_read(all, bound as int, item, (count - k) as nat, s, c.position(), place),
            ),
        decreases count - k,
    {
        match decode_item(layouts, bound, item, place, c) {
            Err(e) => {
                return Err(e);
            },
            Ok(v) => {
                proof {
                    lemma_models_push(values@, v);
                    let rest = items_read(
                        all,
                        bound as int,
                        item,
                        (count - k - 1) as nat,
                        s,
                        c.position(),
                        place,
                    );
                    if let Ok((tail, end)) = rest {
                        assert(models(values@) + (seq![v@] + tail) =~= models(values@).push(v@)
                            + tail);
                    }
                }
                values.push(v);
                k = k + 1;
            },
        }
    }
    proof {
        assert(models(values@) + Seq::<ValueModel>::empty() =~= models(values@));
    }
    Ok(values)
}

/// Read one field.
fn decode_field(
    layouts: &Vec<Vec<FieldCodec>>,
    bound: usize,
    codec: FieldCodec,
    place: Place,
    c: &mut ReaderContext,
) -> (r: Result<Value, DeserializationError>)
    requires
        old(c).wf(),
    ensures
        got(
            field_read(
                layouts_of(layouts@),
                bound as int,
                codec,
                old(c).bytes(),
                old(c).position(),
                place,
            ),
            r,
            old(c),
            final(c),
        ),
    decreases bound, 2int, 0int,
{
    match codec.arity {
        Arity::One => decode_item(layouts, bound, codec.item, place, c),
        Arity::Counted16 => {
            let count = match c.read_u16() {
                Some(count) => count as usize,
                None => {
                    return Err(DeserializationError { place, fault: DecodeFault::ShortRead });
                },
            };
            match decode_items(layouts, bound, codec.item, count, place, c) {
                Ok(values) => Ok(Value::List(values)),
                Err(e) => Err(e),
            }
        },
        Arity::Counted32 => {
            let count = match c.read_u32() {
                Some(count) => count as usize,
                None => {
                    return Err(DeserializationError { place, fault: DecodeFault::ShortRead });
                },
            };
            match decode_items(layouts, bound, codec.item, count, place, c) {
                Ok(values) => Ok(Value::List(values)),
                Err(e) => Err(e),
            }
        },
    }
}

/// Read the fields of record `index`, one after the other.
fn decode_fields(layouts: &Vec<Vec<FieldCodec>>, index: usize, c: &mut ReaderContext) -> (r: Result<
    Vec<Value>,
    DeserializationError,
>)
    requires
        old(c).wf(),
        index < layouts@.len(),
    ensures
        got_all(
            fields_read(
                layouts_of(layouts@),
                index as int,
                0,
                old(c).bytes(),
                old(c).position(),
            ),
            r,
            old(c),
            final(c),
        ),
    decreases index, 3int, 0int,
{
    let ghost all = layouts_of(layouts@);
    let ghost s = c.bytes();
    let ghost start = c.position();
    let layout = &layouts[index];
    let mut values: Vec<Value> = Vec::new();
    let mut k: usize = 0;
    proof {
        assert(models(values@) =~= Seq::<ValueModel>::empty());
        if let Ok((tail, end)) = fields_read(all, index as int, 0, s, start) {
            assert(models(values@) + tail =~= tail);
        }
    }
    while k < layout.len()
        invariant
            all == layouts_of(layouts@),
            index < layouts@.len(),
            layout == layouts@[index as int],
            all[index as int] == layout@,
            k <= layout@.len(),
            c.wf(),
            c.bytes() == s,
            s == old(c).bytes(),
            start == old(c).position(),
            fields_read(all, index as int, 0, s, start) == chained(
                models(values@),
                fields_read(all, index as int, k as int, s, c.position()),
            ),
        decreases layout@.len() - k,
    {
        let place = Place::Field { record: index, field: k };
        match decode_field(layouts, index, layout[k], place, c) {
            Err(e) => {
                return Err(e);
            },
            Ok(v) => {
                proof {
                    lemma_models_push(values@, v);
                    let rest = fields_read(all, index as int, k + 1, s, c.position());
                    if let Ok((tail, end)) = rest {
                        assert(models(values@) + (seq![v@] + tail) =~= models(values@).push(v@)
                            + tail);
                    }
                }
                values.push(v);
                k = k + 1;
            },
        }
    }
    proof {
        assert(models(values@) + Seq::<ValueModel>::empty() =~= models(values@));
    }
    Ok(values)
}

/// Read the fields of record `index` of a schema from the cursor, in
/// declared order: one value per field.
pub fn deserialize_fields(layouts: &Vec<Vec<FieldCodec>>, index: usize, c: &mut ReaderContext) -> (r:
    Result<Vec<Value>, DeserializationError>)
    requires
        old(c).wf(),
    ensures
        match record_read(layouts_of(layouts@), index as int, old(c).bytes(), old(c).position()) {
            Ok((value, end)) => (r matches Ok(v) && ValueModel::Record(models(v@)) == value)
                && final(c).moved_to(old(c), end),
            Err(e) => (r matches Err(x) && x == e) && final(c).wf() && final(c).bytes() == old(
                c,
            ).bytes(),
        },
{
    if index >= layouts.len() {
        return Err(
            DeserializationError { place: Place::Value, fault: DecodeFault::MalformedSchema },
        );
    }
    decode_fields(layouts, index, c)
}

/// Read a value as record `index` of a schema from the start of `bytes`.
/// Bytes after the record are left unread.
pub fn from_bytes(layouts: &Vec<Vec<FieldCodec>>, index: usize, bytes: &[u8]) -> (r: Result<
    Value,
    DeserializationError,
>)
    ensures
        match record_read(layouts_of(layouts@), index as int, bytes@, 0) {
            Ok((value, end)) => (r matches Ok(v) && v@ == value) && 0 <= end <= bytes@.len(),
            Err(e) => r matches Err(x) && x == e,
        },
{
    let mut c = ReaderContext::new(bytes);
    let r = deserialize_fields(layouts, index, &mut c);
    proof {
        c.lemma_within();
    }
    match r {
        Ok(values) => Ok(Value::Record(values)),
        Err(e) => Err(e),
    }
}

} // verus!
