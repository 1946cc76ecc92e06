//! Decoding what was encoded gives the value back.
//!
//! The statements are over the wire forms that the encoder's contract speaks
//! of and the readings that the decoder's contract speaks of, so they hold of
//! every value that the encoder accepts, for every schema.

use vstd::prelude::*;
use crate::codec::{Arity, FieldCodec, ItemCodec, ScalarKind};
use crate::de::{
    fields_read,
    field_read,
    item_read,
    items_read,
    record_read,
    scalar_at,
    scalar_width,
};
use crate::error::Place;
use crate::ser::{fields_wire, field_wire, item_wire, items_wire, record_wire, scalar_wire};
use crate::value::ValueModel;
use crate::wire::{
    has_bytes,
    i16_at,
    i32_at,
    i64_at,
    lemma_bytes_of_reading,
    lemma_image_of_signed,
    lemma_stands_in_concat,
    lemma_u16_round_trip,
    lemma_u24_round_trip,
    lemma_u32_round_trip,
    lemma_u64_round_trip,
    stands_at,
    u16_at,
    u16_bytes,
    u32_at,
    u32_bytes,
    u64_at,
    unsigned16,
    unsigned32,
    unsigned64,
    unsigned8,
};

verus! {

/// Where two parts stand one after the other, each of them stands.
pub proof fn lemma_stands_split(s: Seq<u8>, pos: int, head: Seq<u8>, tail: Seq<u8>)
    requires
        stands_at(s, pos, head + tail),
    ensures
        stands_at(s, pos, head),
        stands_at(s, pos + head.len(), tail),
{
    let whole = head + tail;
    assert forall|k: int| 0 <= k < head.len() implies s[pos + k] == #[trigger] head[k] by {
        assert(whole[k] == head[k]);
    }
    assert forall|k: int| 0 <= k < tail.len() implies s[pos + head.len() + k] == #[trigger] tail[k] by {
        assert(whole[head.len() + k] == tail[k]);
        assert(s[pos + (head.len() + k)] == whole[head.len() + k]);
    }
}

/// A scalar that has a wire form is read back from where that form stands.
pub proof fn lemma_scalar_round_trip(kind: ScalarKind, value: ValueModel, s: Seq<u8>, pos: int)
    requires
        scalar_wire(kind, value) is Ok,
        stands_at(s, pos, scalar_wire(kind, value)->Ok_0),
    ensures
        scalar_wire(kind, value)->Ok_0.len() == scalar_width(kind),
        has_bytes(s, pos, scalar_width(kind)),
        scalar_at(kind, s, pos) == value,
{
    let bytes = scalar_wire(kind, value)->Ok_0;
    match (kind, value) {
        (ScalarKind::Uint8, ValueModel::Uint8(v)) => {
            assert(s[pos + 0] == bytes[0]);
        },
        (ScalarKind::Int8, ValueModel::Int8(v)) => {
            assert(s[pos + 0] == bytes[0]);
        },
        (ScalarKind::Uint16, ValueModel::Uint16(v)) => {
            lemma_u16_round_trip(s, pos, v);
        },
        (ScalarKind::Int16, ValueModel::Int16(v)) => {
            lemma_u16_round_trip(s, pos, unsigned16(v));
        },
        (ScalarKind::Uint24, ValueModel::Uint24(v)) => {
            lemma_u24_round_trip(s, pos, v);
        },
        (ScalarKind::Uint32, ValueModel::Uint32(v)) => {
            lemma_u32_round_trip(s, pos, v);
        },
        (ScalarKind::Int32, ValueModel::Int32(v)) => {
            lemma_u32_round_trip(s, pos, unsigned32(v));
        },
        (ScalarKind::Fixed, ValueModel::Fixed(v)) => {
            lemma_u32_round_trip(s, pos, unsigned32(v));
        },
        (ScalarKind::F2Dot14, ValueModel::F2Dot14(v)) => {
            lemma_u16_round_trip(s, pos, unsigned16(v as i16));
        },
        (ScalarKind::Version16Dot16, ValueModel::Version(v)) => {
            lemma_u32_round_trip(s, pos, v);
        },
        (ScalarKind::LongDateTime, ValueModel::Date(v)) => {
            lemma_u64_round_trip(s, pos, unsigned64(v));
        },
        _ => {},
    }
}

/// An item that has a wire form is read back from where that form stands.
pub proof fn lemma_item_round_trip(
    layouts: Seq<Seq<FieldCodec>>,
    bound: int,
    item: ItemCodec,
    value: ValueModel,
    written_at: Place,
    read_at: Place,
    s: Seq<u8>,
    pos: int,
)
    requires
        item_wire(layouts, bound, item, value, written_at) is Ok,
        stands_at(s, pos, item_wire(layouts, bound, item, value, written_at)->Ok_0),
    ensures
        item_read(layouts, bound, item, s, pos, read_at) == Ok::<
            (ValueModel, int),
            crate::error::DeserializationError,
        >((value, pos + item_wire(layouts, bound, item, value, written_at)->Ok_0.len())),
    decreases bound, 0int, 0int,
{
    match item {
        ItemCodec::Scalar(kind) => {
            lemma_scalar_round_trip(kind, value, s, pos);
        },
        ItemCodec::Offset16 => {
            let d = value->Offset16_0;
            lemma_u16_round_trip(s, pos, d);
        },
        ItemCodec::Offset32 => {
            let d = value->Offset32_0;
            lemma_u32_round_trip(s, pos, d);
        },
        ItemCodec::Maybe => {
            match value {
                ValueModel::Maybe(Some(d)) => {
                    lemma_u16_round_trip(s, pos, d);
                },
                ValueModel::Maybe(None) => {
                    lemma_u16_round_trip(s, pos, 0);
                },
                _ => {},
            }
        },
        ItemCodec::Record(j) => {
            let values = value->Record_0;
            lemma_fields_round_trip(layouts, j as int, values, 0, s, pos);
            assert(values.skip(0) =~= values);
        },
    }
}

/// The items of a sequence that have wire forms are read back, in order,
/// from where those forms stand.
pub proof fn lemma_items_round_trip(
    layouts: Seq<Seq<FieldCodec>>,
    bound: int,
    item: ItemCodec,
    values: Seq<ValueModel>,
    from: int,
    written_at: Place,
    read_at: Place,
    s: Seq<u8>,
    pos: int,
)
    requires
        0 <= from <= values.len(),
        items_wire(layouts, bound, item, values, from, written_at) is Ok,
        stands_at(s, pos, items_wire(layouts, bound, item, values, from, written_at)->Ok_0),
    ensures
        items_read(layouts, bound, item, (values.len() - from) as nat, s, pos, read_at) == Ok::<
            (Seq<ValueModel>, int),
            crate::error::DeserializationError,
        >(
            (
                values.skip(from),
                pos + items_wire(layouts, bound, item, values, from, written_at)->Ok_0.len(),
            ),
        ),
    decreases bound, 1int, values.len() - from,
{
    if from == values.len() {
        assert(values.skip(from) =~= Seq::<ValueModel>::empty());
    } else {
        let head = item_wire(layouts, bound, item, values[from], written_at)->Ok_0;
        let tail = items_wire(layouts, bound, item, values, from + 1, written_at)->Ok_0;
        lemma_stands_split(s, pos, head, tail);
        lemma_item_round_trip(layouts, bound, item, values[from], written_at, read_at, s, pos);
        lemma_items_round_trip(
            layouts,
            bound,
            item,
            values,
            from + 1,
            written_at,
            read_at,
            s,
            pos + head.len(),
        );
        assert(values.skip(from) =~= seq![values[from]] + values.skip(from + 1));
    }
}

/// A field that has a wire form is read back from where that form stands.
pub proof fn lemma_field_round_trip(
    layouts: Seq<Seq<FieldCodec>>,
    bound: int,
    codec: FieldCodec,
    value: ValueModel,
    written_at: Place,
    read_at: Place,
    s: Seq<u8>,
    pos: int,
)
    requires
        field_wire(layouts, bound, codec, value, written_at) is Ok,
        stands_at(s, pos, field_wire(layouts, bound, codec, value, written_at)->Ok_0),
    ensures
        field_read(layouts, bound, codec, s, pos, read_at) == Ok::<
            (ValueModel, int),
            crate::error::DeserializationError,
        >((value, pos + field_wire(layouts, bound, codec, value, written_at)->Ok_0.len())),
    decreases bound, 2int, 0int,
{
    match codec.arity {
        Arity::One => {
            lemma_item_round_trip(layouts, bound, codec.item, value, written_at, read_at, s, pos);
        },
        Arity::Counted16 => {
            let values = value->List_0;
            let head = u16_bytes(values.len() as u16);
            let body = items_wire(layouts, bound, codec.item, values, 0, written_at)->Ok_0;
            lemma_stands_split(s, pos, head, body);
            lemma_u16_round_trip(s, pos, values.len() as u16);
            lemma_items_round_trip(
                layouts,
                bound,
                codec.item,
                values,
                0,
                written_at,
                read_at,
                s,
                pos + 2,
            );
            assert(values.skip(0) =~= values);
        },
        Arity::Counted32 => {
            let values = value->List_0;
            let head = u32_bytes(values.len() as u32);
            let body = items_wire(layouts, bound, codec.item, values, 0, written_at)->Ok_0;
            lemma_stands_split(s, pos, head, body);
            lemma_u32_round_trip(s, pos, values.len() as u32);
            lemma_items_round_trip(
                layouts,
                bound,
                codec.item,
                values,
                0,
                written_at,
                read_at,
                s,
                pos + 4,
            );
            assert(values.skip(0) =~= values);
        },
    }
}

/// The fields of a record that have wire forms are read back, in order, from
/// where those forms stand.
pub proof fn lemma_fields_round_trip(
    layouts: Seq<Seq<FieldCodec>>,
    index: int,
    values: Seq<ValueModel>,
    from: int,
    s: Seq<u8>,
    pos: int,
)
    requires
        0 <= from <= values.len(),
        values.len() == layouts[index].len(),
        fields_wire(layouts, index, values, from) is Ok,
        stands_at(s, pos, fields_wire(layouts, index, values, from)->Ok_0),
    ensures
        fields_read(layouts, index, from, s, pos) == Ok::<
            (Seq<ValueModel>, int),
            crate::error::DeserializationError,
        >((values.skip(from), pos + fields_wire(layouts, index, values, from)->Ok_0.len())),
    decreases index, 3int, values.len() - from,
{
    if from == values.len() {
        assert(values.skip(from) =~= Seq::<ValueModel>::empty());
    } else {
        let place = Place::Field { record: index as usize, field: from as usize };
        let codec = layouts[index][from];
        let head = field_wire(layouts, index, codec, values[from], place)->Ok_0;
        let tail = fields_wire(layouts, index, values, from + 1)->Ok_0;
        lemma_stands_split(s, pos, head, tail);
        lemma_field_round_trip(layouts, index, codec, values[from], place, place, s, pos);
        lemma_fields_round_trip(layouts, index, values, from + 1, s, pos + head.len());
        assert(values.skip(from) =~= seq![values[from]] + values.skip(from + 1));
    }
}

/// Round trip: for every schema, every record of it and every value that
/// the encoder accepts as that record, the decoder reads the value back from
/// wherever the encoded bytes stand, and stops right after them.
pub proof fn theorem_round_trip(
    layouts: Seq<Seq<FieldCodec>>,
    index: int,
    value: ValueModel,
    s: Seq<u8>,
    pos: int,
)
    requires
        record_wire(layouts, index, value) is Ok,
        stands_at(s, pos, record_wire(layouts, index, value)->Ok_0),
    ensures
        record_read(layouts, index, s, pos) == Ok::<
            (ValueModel, int),
            crate::error::DeserializationError,
        >((value, pos + record_wire(layouts, index, value)->Ok_0.len())),
{
    lemma_item_round_trip(
        layouts,
        index + 1,
        ItemCodec::Record(index as usize),
        value,
        Place::Value,
        Place::Value,
        s,
        pos,
    );
}

/// Round trip on the encoded bytes themselves: decoding the encoding of a
/// value gives the value and consumes every byte.
pub proof fn theorem_decode_encode(layouts: Seq<Seq<FieldCodec>>, index: int, value: ValueModel)
    requires
        record_wire(layouts, index, value) is Ok,
    ensures
        record_read(layouts, index, record_wire(layouts, index, value)->Ok_0, 0) == Ok::<
            (ValueModel, int),
            crate::error::DeserializationError,
        >((value, record_wire(layouts, index, value)->Ok_0.len() as int)),
{
    let bytes = record_wire(layouts, index, value)->Ok_0;
    assert(stands_at(bytes, 0, bytes));
    theorem_round_trip(layouts, index, value, bytes, 0);
}

/// Round trip inside a larger buffer: whatever bytes stand before and after
/// the encoding of a value, the decoder reads the value back from where the
/// encoding starts and stops where it ends.
pub proof fn theorem_round_trip_in_buffer(
    layouts: Seq<Seq<FieldCodec>>,
    index: int,
    value: ValueModel,
    front: Seq<u8>,
    back: Seq<u8>,
)
    requires
        record_wire(layouts, index, value) is Ok,
    ensures
        record_read(
            layouts,
            index,
            front + record_wire(layouts, index, value)->Ok_0 + back,
            front.len() as int,
        ) == Ok::<(ValueModel, int), crate::error::DeserializationError>(
            (value, (front.len() + record_wire(layouts, index, value)->Ok_0.len()) as int),
        ),
{
    let bytes = record_wire(layouts, index, value)->Ok_0;
    lemma_stands_in_concat(front, bytes, back);
    theorem_round_trip(layouts, index, value, front + bytes + back, front.len() as int);
}

/// A scalar that is read has the bytes it was read from as its wire form.
pub proof fn lemma_scalar_reads_back(kind: ScalarKind, s: Seq<u8>, pos: int)
    requires
        has_bytes(s, pos, scalar_width(kind)),
    ensures
        scalar_wire(kind, scalar_at(kind, s, pos)) == Ok::<Seq<u8>, crate::error::EncodeFault>(
            s.subrange(pos, pos + scalar_width(kind)),
        ),
{
    lemma_bytes_of_reading(s, pos);
    match kind {
        ScalarKind::Uint8 => {
            assert(seq![s[pos]] =~= s.subrange(pos, pos + 1));
        },
        ScalarKind::Int8 => {
            lemma_image_of_signed(s[pos], 0, 0, 0);
            assert(seq![s[pos]] =~= s.subrange(pos, pos + 1));
        },
        ScalarKind::Int16 => {
            lemma_image_of_signed(0, u16_at(s, pos), 0, 0);
        },
        ScalarKind::F2Dot14 => {
            lemma_image_of_signed(0, u16_at(s, pos), 0, 0);
            assert((i16_at(s, pos) as i32) as i16 == i16_at(s, pos));
        },
        ScalarKind::Int32 => {
            lemma_image_of_signed(0, 0, u32_at(s, pos), 0);
        },
        ScalarKind::Fixed => {
            lemma_image_of_signed(0, 0, u32_at(s, pos), 0);
        },
        ScalarKind::LongDateTime => {
            lemma_image_of_signed(0, 0, 0, u64_at(s, pos));
        },
        _ => {},
    }
}

/// An item that is read has the bytes it was read from as its wire form.
pub proof fn lemma_item_reads_back(
    layouts: Seq<Seq<FieldCodec>>,
    bound: int,
    item: ItemCodec,
    s: Seq<u8>,
    pos: int,
    read_at: Place,
    written_at: Place,
)
    requires
        0 <= pos <= s.len(),
        item_read(layouts, bound, item, s, pos, read_at) is Ok,
    ensures
        pos <= item_read(layouts, bound, item, s, pos, read_at)->Ok_0.1 <= s.len(),
        item_wire(
            layouts,
            bound,
            item,
            item_read(layouts, bound, item, s, pos, read_at)->Ok_0.0,
            written_at,
        ) == Ok::<Seq<u8>, crate::error::SerializationError>(
            s.subrange(pos, item_read(layouts, bound, item, s, pos, read_at)->Ok_0.1),
        ),
    decreases bound, 0int, 0int,
{
    lemma_bytes_of_reading(s, pos);
    match item {
        ItemCodec::Scalar(kind) => {
            lemma_scalar_reads_back(kind, s, pos);
        },
        ItemCodec::Record(j) => {
            let (values, end) = fields_read(layouts, j as int, 0, s, pos)->Ok_0;
            assert(values.skip(0) =~= values);
            lemma_fields_count(layouts, j as int, 0, s, pos);
            lemma_fields_read_back(layouts, j as int, 0, values, s, pos);
        },
        _ => {},
    }
}

/// Items that are read have the bytes they were read from as their wire forms.
pub proof fn lemma_items_read_back(
    layouts: Seq<Seq<FieldCodec>>,
    bound: int,
    item: ItemCodec,
    from: int,
    all: Seq<ValueModel>,
    s: Seq<u8>,
    pos: int,
    read_at: Place,
    written_at: Place,
)
    requires
        0 <= from <= all.len(),
        0 <= pos <= s.len(),
        items_read(layouts, bound, item, (all.len() - from) as nat, s, pos, read_at) is Ok,
        items_read(layouts, bound, item, (all.len() - from) as nat, s, pos, read_at)->Ok_0.0
            == all.skip(from),
    ensures
        pos <= items_read(
            layouts,
            bound,
            item,
            (all.len() - from) as nat,
            s,
            pos,
            read_at,
        )->Ok_0.1 <= s.len(),
        items_wire(layouts, bound, item, all, from, written_at) == Ok::<
            Seq<u8>,
            crate::error::SerializationError,
        >(
            s.subrange(
                pos,
                items_read(
                    layouts,
                    bound,
                    item,
                    (all.len() - from) as nat,
                    s,
                    pos,
                    read_at,
                )->Ok_0.1,
            ),
        ),
    decreases bound, 1int, all.len() - from,
{
    if from == all.len() {
        assert(s.subrange(pos, pos) =~= Seq::<u8>::empty());
    } else {
        let (head, next) = item_read(layouts, bound, item, s, pos, read_at)->Ok_0;
        let rest = items_read(
            layouts,
            bound,
            item,
            (all.len() - from - 1) as nat,
            s,
            next,
            read_at,
        );
        let (tail, end) = rest->Ok_0;
        lemma_item_reads_back(layouts, bound, item, s, pos, read_at, written_at);
        assert((seq![head] + tail)[0] == head);
        assert(all.skip(from)[0] == all[from]);
        assert(tail =~= (seq![head] + tail).skip(1));
        assert(all.skip(from + 1) =~= all.skip(from).skip(1));
        lemma_items_read_back(layouts, bound, item, from + 1, all, s, next, read_at, written_at);
        assert(s.subrange(pos, next) + s.subrange(next, end) =~= s.subrange(pos, end));
    }
}

/// A field that is read has the bytes it was read from as its wire form.
pub proof fn lemma_field_reads_back(
    layouts: Seq<Seq<FieldCodec>>,
    bound: int,
    codec: FieldCodec,
    s: Seq<u8>,
    pos: int,
    read_at: Place,
    written_at: Place,
)
    requires
        0 <= pos <= s.len(),
        field_read(layouts, bound, codec, s, pos, read_at) is Ok,
    ensures
        pos <= field_read(layouts, bound, codec, s, pos, read_at)->Ok_0.1 <= s.len(),
        field_wire(
            layouts,
            bound,
            codec,
            field_read(layouts, bound, codec, s, pos, read_at)->Ok_0.0,
            written_at,
        ) == Ok::<Seq<u8>, crate::error::SerializationError>(
            s.subrange(pos, field_read(layouts, bound, codec, s, pos, read_at)->Ok_0.1),
        ),
    decreases bound, 2int, 0int,
{
    lemma_bytes_of_reading(s, pos);
    match codec.arity {
        Arity::One => {
            lemma_item_reads_back(layouts, bound, codec.item, s, pos, read_at, written_at);
        },
        Arity::Counted16 => {
            let count = u16_at(s, pos) as nat;
            let (values, end) = items_read(
                layouts,
                bound,
                codec.item,
                count,
                s,
                pos + 2,
                read_at,
            )->Ok_0;
            lemma_items_count(layouts, bound, codec.item, count, s, pos + 2, read_at);
            assert(values.skip(0) =~= values);
            lemma_items_read_back(
                layouts,
                bound,
                codec.item,
                0,
                values,
                s,
                pos + 2,
                read_at,
                written_at,
            );
            assert(s.subrange(pos, pos + 2) + s.subrange(pos + 2, end) =~= s.subrange(pos, end));
        },
        Arity::Counted32 => {
            let count = u32_at(s, pos) as nat;
            let (values, end) = items_read(
                layouts,
                bound,
                codec.item,
                count,
                s,
                pos + 4,
                read_at,
            )->Ok_0;
            lemma_items_count(layouts, bound, codec.item, count, s, pos + 4, read_at);
            assert(values.skip(0) =~= values);
            lemma_items_read_back(
                layouts,
                bound,
                codec.item,
                0,
                values,
                s,
                pos + 4,
                read_at,
                written_at,
            );
            assert(s.subrange(pos, pos + 4) + s.subrange(pos + 4, end) =~= s.subrange(pos, end));
        },
    }
}

/// Reading `count` items gives `count` values.
pub proof fn lemma_items_count(
    layouts: Seq<Seq<FieldCodec>>,
    bound: int,
    item: ItemCodec,
    count: nat,
    s: Seq<u8>,
    pos: int,
    place: Place,
)
    requires
        items_read(layouts, bound, item, count, s, pos, place) is Ok,
    ensures
        items_read(layouts, bound, item, count, s, pos, place)->Ok_0.0.len() == count,
    decreases count,
{
    if count > 0 {
        let (head, next) = item_read(layouts, bound, item, s, pos, place)->Ok_0;
        lemma_items_count(layouts, bound, item, (count - 1) as nat, s, next, place);
    }
}

/// Reading the fields of a record from field `from` on gives one value for
/// each of them.
pub proof fn lemma_fields_count(
    layouts: Seq<Seq<FieldCodec>>,
    index: int,
    from: int,
    s: Seq<u8>,
    pos: int,
)
    requires
        0 <= from <= layouts[index].len(),
        fields_read(layouts, index, from, s, pos) is Ok,
    ensures
        fields_read(layouts, index, from, s, pos)->Ok_0.0.len() == layouts[index].len() - from,
    decreases layouts[index].len() - from,
{
    if from < layouts[index].len() {
        let place = Place::Field { record: index as usize, field: from as usize };
        let (head, next) = field_read(layouts, index, layouts[index][from], s, pos, place)->Ok_0;
        lemma_fields_count(layouts, index, from + 1, s, next);
    }
}

/// The fields of a record that are read have the bytes they were read from
/// as their wire forms.
pub proof fn lemma_fields_read_back(
    layouts: Seq<Seq<FieldCodec>>,
    index: int,
    from: int,
    all: Seq<ValueModel>,
    s: Seq<u8>,
    pos: int,
)
    requires
        0 <= from <= layouts[index].len(),
        0 <= pos <= s.len(),
        all.len() == layouts[index].len(),
        fields_read(layouts, index, from, s, pos) is Ok,
        fields_read(layouts, index, from, s, pos)->Ok_0.0 == all.skip(from),
    ensures
        pos <= fields_read(layouts, index, from, s, pos)->Ok_0.1 <= s.len(),
        fields_wire(layouts, index, all, from) == Ok::<Seq<u8>, crate::error::SerializationError>(
            s.subrange(pos, fields_read(layouts, index, from, s, pos)->Ok_0.1),
        ),
    decreases index, 3int, layouts[index].len() - from,
{
    if from == layouts[index].len() {
        assert(s.subrange(pos, pos) =~= Seq::<u8>::empty());
    } else {
        let place = Place::Field { record: index as usize, field: from as usize };
        let codec = layouts[index][from];
        let (head, next) = field_read(layouts, index, codec, s, pos, place)->Ok_0;
        let (tail, end) = fields_read(layouts, index, from + 1, s, next)->Ok_0;
        lemma_field_reads_back(layouts, index, codec, s, pos, place, place);
        assert((seq![head] + tail)[0] == head);
        assert(all.skip(from)[0] == all[from]);
        assert(tail =~= (seq![head] + tail).skip(1));
        assert(all.skip(from + 1) =~= all.skip(from).skip(1));
        lemma_fields_read_back(layouts, index, from + 1, all, s, next);
        assert(s.subrange(pos, next) + s.subrange(next, end) =~= s.subrange(pos, end));
    }
}

/// The way back: a value that the decoder reads has, as its encoding, exactly
/// the bytes that the decoder consumed.  So the encoder and the decoder are
/// two sides of one form: no two byte strings are read as the same value.
pub proof fn theorem_encode_decode(
    layouts: Seq<Seq<FieldCodec>>,
    index: int,
    s: Seq<u8>,
    pos: int,
)
    requires
        0 <= pos <= s.len(),
        record_read(layouts, index, s, pos) is Ok,
    ensures
        pos <= record_read(layouts, index, s, pos)->Ok_0.1 <= s.len(),
        record_wire(layouts, index, record_read(layouts, index, s, pos)->Ok_0.0) == Ok::<
            Seq<u8>,
            crate::error::SerializationError,
        >(s.subrange(pos, record_read(layouts, index, s, pos)->Ok_0.1)),
{
    lemma_item_reads_back(
        layouts,
        index + 1,
        ItemCodec::Record(index as usize),
        s,
        pos,
        Place::Value,
        Place::Value,
    );
}

} // verus!
