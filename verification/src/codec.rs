//! Binding a declared schema to codecs.
//!
//! A declaration names its types by words.  Binding resolves each word to
//! a wire-format scalar or to a record declared earlier, and each structural
//! keyword to how many items stand on the wire and what one item is.  The
//! bound form is what the encoder and the decoder walk.

use vstd::prelude::*;
use crate::error::{Place, SchemaDefinitionError};
use crate::schema::{
    field_models,
    is_word,
    record_models,
    with_prefix,
    FieldDecl,
    FieldModel,
    RecordModel,
    RecordSchema,
    WireKind,
};

verus! {

/// The wire-format scalar types.
#[derive(Clone, Copy, Debug, PartialEq, Eq, Structural)]
pub enum ScalarKind {
    Uint8,
    Int8,
    Uint16,
    Int16,
    Uint24,
    Uint32,
    Int32,
    Fixed,
    F2Dot14,
    Version16Dot16,
    LongDateTime,
}

/// What one item on the wire is.
#[derive(Clone, Copy, Debug, PartialEq, Eq, Structural)]
pub enum ItemCodec {
    /// A scalar, encoded in place.
    Scalar(ScalarKind),
    /// A record, by its index in the schema, encoded in place field by field.
    Record(usize),
    /// A 16-bit distance to a subtable, which must not be zero.
    Offset16,
    /// A 32-bit distance to a subtable, which must not be zero.
    Offset32,
    /// A 16-bit distance to an optional subtable, where zero means absent.
    Maybe,
}

/// How many items a field holds.
#[derive(Clone, Copy, Debug, PartialEq, Eq, Structural)]
pub enum Arity {
    /// Exactly one item.
    One,
    /// A 16-bit count followed by that many items.
    Counted16,
    /// A 32-bit count followed by that many items.
    Counted32,
}

/// The codec of one field.
#[derive(Clone, Copy, Debug, PartialEq, Eq, Structural)]
pub struct FieldCodec {
    /// How many items stand on the wire.
    pub arity: Arity,
    /// What each item is.
    pub item: ItemCodec,
}

/// The views of the layouts of a bound schema.
pub open spec fn layouts_of(layouts: Seq<Vec<FieldCodec>>) -> Seq<Seq<FieldCodec>> {
    Seq::new(layouts.len(), |i: int| layouts[i]@)
}

/// The scalar type that a word names, if it names one.
pub open spec fn scalar_named(word: Seq<char>) -> Option<ScalarKind> {
    if word == "uint8"@ {
        Some(ScalarKind::Uint8)
    } else if word == "int8"@ {
        Some(ScalarKind::Int8)
    } else if word == "uint16"@ {
        Some(ScalarKind::Uint16)
    } else if word == "int16"@ {
        Some(ScalarKind::Int16)
    } else if word == "uint24"@ {
        Some(ScalarKind::Uint24)
    } else if word == "uint32"@ {
        Some(ScalarKind::Uint32)
    } else if word == "int32"@ {
        Some(ScalarKind::Int32)
    } else if word == "Fixed"@ {
        Some(ScalarKind::Fixed)
    } else if word == "F2DOT14"@ {
        Some(ScalarKind::F2Dot14)
    } else if word == "Version16Dot16"@ {
        Some(ScalarKind::Version16Dot16)
    } else if word == "LONGDATETIME"@ {
        Some(ScalarKind::LongDateTime)
    } else if word == "FWORD"@ {
        Some(ScalarKind::Int16)
    } else if word == "UFWORD"@ {
        Some(ScalarKind::Uint16)
    } else if word == "GlyphID"@ {
        Some(ScalarKind::Uint16)
    } else {
        None
    }
}

/// The first record from `from` on and before `bound` that has the given name.
pub open spec fn record_named(records: Seq<RecordModel>, from: int, bound: int, word: Seq<char>)
    -> Option<int>
    decreases bound - from,
{
    if from < 0 || from >= bound || from >= records.len() {
        None
    } else if records[from].name == word {
        Some(from)
    } else {
        record_named(records, from + 1, bound, word)
    }
}

/// The item that a type word stands for in a record with the given index: a
/// scalar, or a record declared before it.
pub open spec fn item_named(records: Seq<RecordModel>, index: int, word: Seq<char>) -> Option<
    ItemCodec,
> {
    match scalar_named(word) {
        Some(kind) => Some(ItemCodec::Scalar(kind)),
        None => match record_named(records, 0, index, word) {
            Some(j) => Some(ItemCodec::Record(j as usize)),
            None => None,
        },
    }
}

/// The codec of a declared field of the record with the given index.
pub open spec fn field_codec(records: Seq<RecordModel>, index: int, field: FieldModel) -> Result<
    FieldCodec,
    SchemaDefinitionError,
> {
    match field.kind {
        WireKind::Maybe => Ok(FieldCodec { arity: Arity::One, item: ItemCodec::Maybe }),
        WireKind::Offset16 => Ok(FieldCodec { arity: Arity::One, item: ItemCodec::Offset16 }),
        WireKind::Offset32 => Ok(FieldCodec { arity: Arity::One, item: ItemCodec::Offset32 }),
        WireKind::CountedOffset16 => Ok(
            FieldCodec { arity: Arity::Counted16, item: ItemCodec::Offset16 },
        ),
        WireKind::CountedOffset32 => Ok(
            FieldCodec { arity: Arity::Counted16, item: ItemCodec::Offset32 },
        ),
        WireKind::Scalar => match item_named(records, index, field.element) {
            Some(item) => Ok(FieldCodec { arity: Arity::One, item }),
            None => Err(SchemaDefinitionError::UnknownType),
        },
        WireKind::Counted => match item_named(records, index, field.element) {
            Some(item) => Ok(FieldCodec { arity: Arity::Counted16, item }),
            None => Err(SchemaDefinitionError::UnknownType),
        },
        WireKind::Counted32 => match item_named(records, index, field.element) {
            Some(item) => Ok(FieldCodec { arity: Arity::Counted32, item }),
            None => Err(SchemaDefinitionError::UnknownType),
        },
    }
}

/// The codecs of the fields of record `index` from field `from` on; the
/// first field that cannot be bound gives the error.
pub open spec fn layout_from(records: Seq<RecordModel>, index: int, from: int) -> Result<
    Seq<FieldCodec>,
    SchemaDefinitionError,
>
    recommends
        0 <= index < records.len(),
    decreases records[index].fields.len() - from,
{
    if from < 0 || from >= records[index].fields.len() {
        Ok(Seq::empty())
    } else {
        match field_codec(records, index, records[index].fields[from]) {
            Err(e) => Err(e),
            Ok(codec) => with_prefix(seq![codec], layout_from(records, index, from + 1)),
        }
    }
}

/// The layouts of the records from `from` on; the first record that cannot
/// be bound gives the error.
pub open spec fn layouts_from(records: Seq<RecordModel>, from: int) -> Result<
    Seq<Seq<FieldCodec>>,
    SchemaDefinitionError,
>
    decreases records.len() - from,
{
    if from < 0 || from >= records.len() {
        Ok(Seq::empty())
    } else {
        match layout_from(records, from, 0) {
            Err(e) => Err(e),
            Ok(layout) => with_prefix(seq![layout], layouts_from(records, from + 1)),
        }
    }
}

/// The bound schema: the layout of every record, in order.
pub open spec fn bound_schema(records: Seq<RecordModel>) -> Result<
    Seq<Seq<FieldCodec>>,
    SchemaDefinitionError,
> {
    layouts_from(records, 0)
}

/// The serializer of record `index`: its layout, where the schema has such a
/// record and the record is declared with the capability to be serialized.
pub open spec fn derived_serializer(records: Seq<RecordModel>, index: int) -> Result<
    Seq<FieldCodec>,
    SchemaDefinitionError,
> {
    if index < 0 || index >= records.len() {
        Err(SchemaDefinitionError::NoSuchRecord)
    } else if !records[index].flags.serialize {
        Err(SchemaDefinitionError::CapabilityDisabled)
    } else {
        layout_from(records, index, 0)
    }
}

/// Every record that a layout embeds stands before the record that holds it.
pub open spec fn layouts_wf(layouts: Seq<Seq<FieldCodec>>) -> bool {
    forall|i: int, f: int|
        0 <= i < layouts.len() && 0 <= f < layouts[i].len() ==> match (#[trigger] layouts[i][f]).item {
            ItemCodec::Record(j) => j < i,
            _ => true,
        }
}

/// The scalar type that a word names, if it names one.
pub fn scalar_kind(word: &String) -> (r: Option<ScalarKind>)
    ensures
        r == scalar_named(word@),
{
    if is_word(word, "uint8") {
        Some(ScalarKind::Uint8)
    } else if is_word(word, "int8") {
        Some(ScalarKind::Int8)
    } else if is_word(word, "uint16") {
        Some(ScalarKind::Uint16)
    } else if is_word(word, "int16") {
        Some(ScalarKind::Int16)
    } else if is_word(word, "uint24") {
        Some(ScalarKind::Uint24)
    } else if is_word(word, "uint32") {
        Some(ScalarKind::Uint32)
    } else if is_word(word, "int32") {
        Some(ScalarKind::Int32)
    } else if is_word(word, "Fixed") {
        Some(ScalarKind::Fixed)
    } else if is_word(word, "F2DOT14") {
        Some(ScalarKind::F2Dot14)
    } else if is_word(word, "Version16Dot16") {
        Some(ScalarKind::Version16Dot16)
    } else if is_word(word, "LONGDATETIME") {
        Some(ScalarKind::LongDateTime)
    } else if is_word(word, "FWORD") {
        Some(ScalarKind::Int16)
    } else if is_word(word, "UFWORD") {
        Some(ScalarKind::Uint16)
    } else if is_word(word, "GlyphID") {
        Some(ScalarKind::Uint16)
    } else {
        None
    }
}

/// The first record before `bound` that has the given name.
fn find_record(records: &Vec<RecordSchema>, bound: usize, word: &String) -> (r: Option<usize>)
    requires
        bound <= records@.len(),
    ensures
        match r {
            Some(j) => record_named(record_models(records@), 0, bound as int, word@) == Some(
                j as int,
            ) && j < bound,
            None => record_named(record_models(records@), 0, bound as int, word@).is_none(),
        },
{
    let mut j: usize = 0;
    while j < bound
        invariant
            j <= bound <= records@.len(),
            record_named(record_models(records@), 0, bound as int, word@) == record_named(
                record_models(records@),
                j as int,
                bound as int,
                word@,
            ),
        decreases bound - j,
    {
        if records[j].name == *word {
            return Some(j);
        }
        j = j + 1;
    }
    None
}

/// Bind one declared field of the record with the given index.
fn bind_field(records: &Vec<RecordSchema>, index: usize, field: &FieldDecl) -> (r: Result<
    FieldCodec,
    SchemaDefinitionError,
>)
    requires
        index <= records@.len(),
    ensures
        r == field_codec(record_models(records@), index as int, field@),
        r matches Ok(codec) ==> (codec.item matches ItemCodec::Record(j) ==> j < index),
{
    match field.kind {
        WireKind::Maybe => Ok(FieldCodec { arity: Arity::One, item: ItemCodec::Maybe }),
        WireKind::Offset16 => Ok(FieldCodec { arity: Arity::One, item: ItemCodec::Offset16 }),
        WireKind::Offset32 => Ok(FieldCodec { arity: Arity::One, item: ItemCodec::Offset32 }),
        WireKind::CountedOffset16 => Ok(
            FieldCodec { arity: Arity::Counted16, item: ItemCodec::Offset16 },
        ),
        WireKind::CountedOffset32 => Ok(
            FieldCodec { arity: Arity::Counted16, item: ItemCodec::Offset32 },
        ),
        WireKind::Scalar => match bind_item(records, index, &field.element) {
            Some(item) => Ok(FieldCodec { arity: Arity::One, item }),
            None => Err(SchemaDefinitionError::UnknownType),
        },
        WireKind::Counted => match bind_item(records, index, &field.element) {
            Some(item) => Ok(FieldCodec { arity: Arity::Counted16, item }),
            None => Err(SchemaDefinitionError::UnknownType),
        },
        WireKind::Counted32 => match bind_item(records, index, &field.element) {
            Some(item) => Ok(FieldCodec { arity: Arity::Counted32, item }),
            None => Err(SchemaDefinitionError::UnknownType),
        },
    }
}

/// The item that a type word stands for in a record with the given index.
fn bind_item(records: &Vec<RecordSchema>, index: usize, word: &String) -> (r: Option<ItemCodec>)
    requires
        index <= records@.len(),
    ensures
        r == item_named(record_models(records@), index as int, word@),
        r matches Some(ItemCodec::Record(j)) ==> j < index,
{
    match scalar_kind(word) {
        Some(kind) => Some(ItemCodec::Scalar(kind)),
        None => match find_record(records, index, word) {
            Some(j) => Some(ItemCodec::Record(j)),
            None => None,
        },
    }
}

/// Bind every field of record `index`.
fn bind_fields(records: &Vec<RecordSchema>, index: usize) -> (r: Result<
    Vec<FieldCodec>,
    SchemaDefinitionError,
>)
    requires
        index < records@.len(),
    ensures
        match r {
            Ok(layout) => layout_from(record_models(records@), index as int, 0) == Ok::<
                Seq<FieldCodec>,
                SchemaDefinitionError,
            >(layout@) && forall|f: int|
                0 <= f < layout@.len() ==> match (#[trigger] layout@[f]).item {
                    ItemCodec::Record(j) => j < index,
                    _ => true,
                },
            Err(e) => layout_from(record_models(records@), index as int, 0) == Err::<
                Seq<FieldCodec>,
                SchemaDefinitionError,
            >(e),
        },
{
    let record = &records[index];
    let ghost all = record_models(records@);
    let mut layout: Vec<FieldCodec> = Vec::new();
    let mut f: usize = 0;
    assert(layout@ + Seq::<FieldCodec>::empty() =~= layout@);
    assert(all[index as int].fields =~= field_models(record.fields@));
    while f < record.fields.len()
        invariant
            index < records@.len(),
            record == records@[index as int],
            all == record_models(records@),
            all[index as int].fields == field_models(record.fields@),
            f <= record.fields@.len(),
            layout_from(all, index as int, 0) == with_prefix(
                layout@,
                layout_from(all, index as int, f as int),
            ),
            forall|g: int|
                0 <= g < layout@.len() ==> match (#[trigger] layout@[g]).item {
                    ItemCodec::Record(j) => j < index,
                    _ => true,
                },
        decreases record.fields@.len() - f,
    {
        match bind_field(records, index, &record.fields[f]) {
            Err(e) => {
                return Err(e);
            },
            Ok(codec) => {
                proof {
                    let rest = layout_from(all, index as int, f + 1);
                    if let Ok(items) = rest {
                        assert(layout@ + (seq![codec] + items) =~= layout@.push(codec) + items);
                    }
                }
                layout.push(codec);
                f = f + 1;
            },
        }
    }
    assert(layout@ + Seq::<FieldCodec>::empty() =~= layout@);
    Ok(layout)
}

/// Bind a whole schema: the layout of every record, in order.  The first
/// field whose type is neither a scalar nor an earlier record ends the
/// binding with an error.
pub fn bind_schema(records: &Vec<RecordSchema>) -> (r: Result<
    Vec<Vec<FieldCodec>>,
    SchemaDefinitionError,
>)
    ensures
        match r {
            Ok(layouts) => bound_schema(record_models(records@)) == Ok::<
                Seq<Seq<FieldCodec>>,
                SchemaDefinitionError,
            >(layouts_of(layouts@)) && layouts_wf(layouts_of(layouts@)) && layouts@.len()
                == records@.len(),
            Err(e) => bound_schema(record_models(records@)) == Err::<
                Seq<Seq<FieldCodec>>,
                SchemaDefinitionError,
            >(e),
        },
{
    let ghost all = record_models(records@);
    let mut layouts: Vec<Vec<FieldCodec>> = Vec::new();
    let mut i: usize = 0;
    assert(layouts_of(layouts@) + Seq::<Seq<FieldCodec>>::empty() =~= layouts_of(layouts@));
    while i < records.len()
        invariant
            all == record_models(records@),
            i <= records@.len(),
            layouts@.len() == i,
            layouts_from(all, 0) == with_prefix(layouts_of(layouts@), layouts_from(all, i as int)),
            layouts_wf(layouts_of(layouts@)),
        decreases records@.len() - i,
    {
        match bind_fields(records, i) {
            Err(e) => {
                return Err(e);
            },
            Ok(layout) => {
                proof {
                    let before = layouts_of(layouts@);
                    let after = layouts_of(layouts@.push(layout));
                    assert(after =~= before.push(layout@));
                    let rest = layouts_from(all, i + 1);
                    if let Ok(items) = rest {
                        assert(before + (seq![layout@] + items) =~= after + items);
                    }
                    assert forall|r: int, f: int|
                        0 <= r < after.len() && 0 <= f < after[r].len() implies match (
                        #[trigger] after[r][f]).item {
                            ItemCodec::Record(j) => j < r,
                            _ => true,
                        } by {
                        if r < before.len() {
                            assert(after[r] == before[r]);
                        } else {
                            assert(after[r] == layout@);
                        }
                    }
                }
                layouts.push(layout);
                i = i + 1;
            },
        }
    }
    assert(layouts_of(layouts@) + Seq::<Seq<FieldCodec>>::empty() =~= layouts_of(layouts@));
    Ok(layouts)
}

/// The serializer of one record of a schema: the codecs of its fields, in
/// wire order.  A record that is declared without the capability to be
/// serialized has none.
pub fn expand_derive_serialize(records: &Vec<RecordSchema>, index: usize) -> (r: Result<
    Vec<FieldCodec>,
    SchemaDefinitionError,
>)
    ensures
        match r {
            Ok(layout) => derived_serializer(record_models(records@), index as int) == Ok::<
                Seq<FieldCodec>,
                SchemaDefinitionError,
            >(layout@),
            Err(e) => derived_serializer(record_models(records@), index as int) == Err::<
                Seq<FieldCodec>,
                SchemaDefinitionError,
            >(e),
        },
{
    if index >= records.len() {
        return Err(SchemaDefinitionError::NoSuchRecord);
    }
    if !records[index].flags.serialize {
        return Err(SchemaDefinitionError::CapabilityDisabled);
    }
    bind_fields(records, index)
}

/// The name of the field that an error names, where it names a field of the
/// schema.
pub fn field_name(records: &Vec<RecordSchema>, place: Place) -> (name: Option<&String>)
    ensures
        match place {
            Place::Field { record, field } => if record < records@.len() && field
                < records@[record as int].fields@.len() {
                name matches Some(n) && n@ == records@[record as int].fields@[field as int].name@
            } else {
                name.is_none()
            },
            _ => name.is_none(),
        },
{
    match place {
        Place::Field { record, field } => {
            if record < records.len() && field < records[record].fields.len() {
                Some(&records[record].fields[field].name)
            } else {
                None
            }
        },
        _ => None,
    }
}

/// How the serializer of a record reaches the codec of a field.
#[derive(Clone, Copy, Debug, PartialEq, Eq, Structural)]
pub enum Wrapper {
    /// The field's own type has the codec.
    Direct,
    /// A copy of the field's sequence is wrapped in the counted codec.
    Counted,
    /// The field's value is wrapped in the codec that the field names.
    Named,
}

/// How the serializer of a record reaches the codec of a field that names
/// the codec `with`, or none.
pub fn field_wrapper(with: Option<&String>) -> (w: Wrapper)
    ensures
        w == match with {
            Some(name) => if name@ == "Counted"@ {
                Wrapper::Counted
            } else {
                Wrapper::Named
            },
            None => Wrapper::Direct,
        },
{
    match with {
        Some(name) => if is_word(name, "Counted") {
            Wrapper::Counted
        } else {
            Wrapper::Named
        },
        None => Wrapper::Direct,
    }
}

} // verus!
