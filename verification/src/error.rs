//! The closed error taxonomy of the codec.

use vstd::prelude::*;

verus! {

/// A malformed declarative schema, found while the schema is being built.
#[derive(Clone, Copy, Debug, PartialEq, Eq, Structural)]
pub enum SchemaDefinitionError {
    /// The input ended where an identifier or a group was expected.
    UnexpectedEnd,
    /// A token other than an identifier stood where an identifier was expected.
    ExpectedIdent,
    /// A token other than a group with the right delimiter stood where one was expected.
    ExpectedGroup,
    /// A bracketed pragma that is not recognised at the place where it stands.
    UnknownPragma,
    /// A field pragma with no field after it.
    DanglingPragma,
    /// A structural keyword whose parentheses hold no element type.
    MissingElementType,
    /// A field names a type that is neither a wire-format scalar nor an earlier record.
    UnknownType,
    /// The record is declared without the capability that was asked of it.
    CapabilityDisabled,
    /// No record stands at the given index.
    NoSuchRecord,
}

/// Where in a structure an error arose.
#[derive(Clone, Copy, Debug, PartialEq, Eq, Structural)]
pub enum Place {
    /// A single value, outside any record.
    Value,
    /// A field of a record of a schema, by the record's and the field's index.
    Field { record: usize, field: usize },
    /// The header of an item variation store: format, offsets and their count.
    StoreHeader,
    /// The region list of an item variation store.
    RegionList,
    /// The header of an item variation data block.
    VariationDataHeader { block: usize },
    /// The delta values of an item variation data block.
    DeltaValues { block: usize },
}

/// Why a value cannot be put into its wire form.
#[derive(Clone, Copy, Debug, PartialEq, Eq, Structural)]
pub enum EncodeFault {
    /// A 24-bit integer of `2^24` or more.
    Uint24OutOfRange(u32),
    /// A 2.14 fixed-point number whose scaled value does not fit in 16 signed bits.
    F2Dot14OutOfRange(i32),
    /// A sequence with more elements than its count header can say.
    CountOutOfRange(usize),
    /// An offset of zero in a field that is not optional.
    NullOffset,
    /// A value of another shape than the schema declares.
    TypeMismatch,
    /// The schema does not describe anything that could be written.
    MalformedSchema,
}

/// Why bytes cannot be read as the value that is expected.
#[derive(Clone, Copy, Debug, PartialEq, Eq, Structural)]
pub enum DecodeFault {
    /// The buffer ends before the value does.
    ShortRead,
    /// An offset of zero in a field that is not optional.
    NullOffset,
    /// An offset that points outside the buffer it is relative to.
    OffsetOutOfBounds,
    /// The schema does not describe anything that could be read.
    MalformedSchema,
}

/// A value cannot be packed into its declared wire width.
#[derive(Clone, Copy, Debug, PartialEq, Eq, Structural)]
pub struct SerializationError {
    /// The field at which encoding stopped.
    pub place: Place,
    /// What was wrong with the value.
    pub fault: EncodeFault,
}

/// A buffer does not hold the structure that is expected.
#[derive(Clone, Copy, Debug, PartialEq, Eq, Structural)]
pub struct DeserializationError {
    /// The field or stage at which decoding stopped.
    pub place: Place,
    /// What was wrong with the bytes.
    pub fault: DecodeFault,
}

} // verus!
