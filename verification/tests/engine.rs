use otspec::codec::{bind_schema, Arity, FieldCodec, ItemCodec, ScalarKind};
use otspec::de::{deserialize_fields, from_bytes};
use otspec::error::{
    DecodeFault, DeserializationError, EncodeFault, Place, SerializationError,
};
use otspec::reader::ReaderContext;
use otspec::schema::{expand_tables, Delimiter, TokenTree};
use otspec::ser::{serialize_fields, to_bytes};
use otspec::types::{uint24, Fixed, Version16Dot16, F2DOT14, LONGDATETIME};
use otspec::value::Value;

fn id(word: &str) -> TokenTree {
    TokenTree::Ident(word.to_string())
}

fn wrapped(word: &str) -> TokenTree {
    TokenTree::Group(Delimiter::Parenthesis, vec![id(word)])
}

fn one(item: ItemCodec) -> FieldCodec {
    FieldCodec { arity: Arity::One, item }
}

fn scalar(kind: ScalarKind) -> FieldCodec {
    one(ItemCodec::Scalar(kind))
}

/// A schema with one record that has a field of every scalar kind.
fn scalar_layouts() -> Vec<Vec<FieldCodec>> {
    vec![vec![
        scalar(ScalarKind::Uint8),
        scalar(ScalarKind::Int8),
        scalar(ScalarKind::Uint16),
        scalar(ScalarKind::Int16),
        scalar(ScalarKind::Uint24),
        scalar(ScalarKind::Uint32),
        scalar(ScalarKind::Int32),
        scalar(ScalarKind::Fixed),
        scalar(ScalarKind::F2Dot14),
        scalar(ScalarKind::Version16Dot16),
        scalar(ScalarKind::LongDateTime),
    ]]
}

fn scalar_record() -> Value {
    Value::Record(vec![
        Value::Uint8(0xFE),
        Value::Int8(-2),
        Value::Uint16(0xABCD),
        Value::Int16(-2),
        Value::Uint24(uint24::from(0x010203)),
        Value::Uint32(0xDEADBEEF),
        Value::Int32(-2),
        Value::Fixed(Fixed::from_packed(0x0001_8000)),
        Value::F2Dot14(F2DOT14::from_packed(-16384)),
        Value::Version(Version16Dot16::from_major_minor(2, 5)),
        Value::Date(LONGDATETIME::from_seconds(-2)),
    ])
}

#[test]
fn every_scalar_has_its_wire_form() {
    let bytes = to_bytes(&scalar_layouts(), 0, &scalar_record()).unwrap();
    assert_eq!(
        bytes,
        vec![
            0xFE, // uint8
            0xFE, // int8
            0xAB, 0xCD, // uint16
            0xFF, 0xFE, // int16
            0x01, 0x02, 0x03, // uint24
            0xDE, 0xAD, 0xBE, 0xEF, // uint32
            0xFF, 0xFF, 0xFF, 0xFE, // int32
            0x00, 0x01, 0x80, 0x00, // Fixed
            0xC0, 0x00, // F2DOT14
            0x00, 0x02, 0x50, 0x00, // Version16Dot16
            0xFF, 0xFF, 0xFF, 0xFF, 0xFF, 0xFF, 0xFF, 0xFE, // LONGDATETIME
        ]
    );
    assert_eq!(from_bytes(&scalar_layouts(), 0, &bytes), Ok(scalar_record()));
}

/// A schema with nested records, counted sequences and offsets, built from
/// its declaration.
fn nested_layouts() -> Vec<Vec<FieldCodec>> {
    let tokens = vec![
        id("Point"),
        TokenTree::Group(Delimiter::Brace, vec![id("int16"), id("x"), id("int16"), id("y")]),
        id("Shape"),
        TokenTree::Group(
            Delimiter::Brace,
            vec![
                id("uint8"),
                id("kind"),
                id("Counted"),
                wrapped("Point"),
                id("points"),
                id("Counted32"),
                wrapped("uint8"),
                id("flags"),
                id("Point"),
                id("origin"),
                id("Maybe"),
                wrapped("Shape"),
                id("next"),
                id("Offset16"),
                wrapped("Shape"),
                id("parent"),
                id("Offset32"),
                wrapped("Shape"),
                id("root"),
                id("CountedOffset16"),
                wrapped("Shape"),
                id("children"),
                id("CountedOffset32"),
                wrapped("Shape"),
                id("others"),
            ],
        ),
    ];
    bind_schema(&expand_tables(&tokens).unwrap()).unwrap()
}

fn point(x: i16, y: i16) -> Value {
    Value::Record(vec![Value::Int16(x), Value::Int16(y)])
}

fn shape(next: Option<u16>) -> Value {
    Value::Record(vec![
        Value::Uint8(7),
        Value::List(vec![point(1, -1), point(256, 2)]),
        Value::List(vec![Value::Uint8(9), Value::Uint8(8), Value::Uint8(7)]),
        point(0, 5),
        Value::Maybe(next),
        Value::Offset16(0x0102),
        Value::Offset32(0x01020304),
        Value::List(vec![Value::Offset16(4), Value::Offset16(6)]),
        Value::List(vec![Value::Offset32(0x10000)]),
    ])
}

fn shape_bytes(next: [u8; 2]) -> Vec<u8> {
    let mut bytes = vec![
        0x07, // kind
        0x00, 0x02, // two points
        0x00, 0x01, 0xFF, 0xFF, 0x01, 0x00, 0x00, 0x02, // the points
        0x00, 0x00, 0x00, 0x03, // three flags
        0x09, 0x08, 0x07, // the flags
        0x00, 0x00, 0x00, 0x05, // origin
    ];
    bytes.extend(next);
    bytes.extend([
        0x01, 0x02, // parent
        0x01, 0x02, 0x03, 0x04, // root
        0x00, 0x02, 0x00, 0x04, 0x00, 0x06, // children
        0x00, 0x01, 0x00, 0x01, 0x00, 0x00, // others
    ]);
    bytes
}

#[test]
fn nested_record_round_trip() {
    let layouts = nested_layouts();
    for (next, wire) in [(None, [0, 0]), (Some(0x1234), [0x12, 0x34])] {
        let value = shape(next);
        let bytes = to_bytes(&layouts, 1, &value).unwrap();
        assert_eq!(bytes, shape_bytes(wire));
        assert_eq!(from_bytes(&layouts, 1, &bytes), Ok(value));
    }
}

#[test]
fn decoding_leaves_the_rest_unread() {
    let layouts = nested_layouts();
    let mut bytes = vec![0xFF, 0xFF, 0x00, 0x01, 0xAA, 0xBB];
    assert_eq!(from_bytes(&layouts, 0, &bytes), Ok(point(-1, 1)));
    let mut c = ReaderContext::new(&bytes);
    assert_eq!(
        deserialize_fields(&layouts, 0, &mut c),
        Ok(vec![Value::Int16(-1), Value::Int16(1)])
    );
    assert_eq!(c.pos(), 4);
    assert_eq!(c.read_remainder(), &[0xAA, 0xBB]);
    bytes.truncate(3);
    assert_eq!(
        from_bytes(&layouts, 0, &bytes),
        Err(DeserializationError {
            place: Place::Field { record: 0, field: 1 },
            fault: DecodeFault::ShortRead
        })
    );
}

#[test]
fn serialize_fields_appends_or_leaves_the_buffer() {
    let layouts = scalar_layouts();
    let Value::Record(mut values) = scalar_record() else { unreachable!() };
    let mut data = vec![1, 2, 3];
    assert_eq!(serialize_fields(&layouts, 0, &values, &mut data), Ok(()));
    assert_eq!(data.len(), 3 + 35);
    assert_eq!(&data[..5], &[1, 2, 3, 0xFE, 0xFE]);

    // the fifth field cannot be packed: nothing is appended
    values[4] = Value::Uint24(uint24::from(1 << 24));
    let mut data = vec![1, 2, 3];
    assert_eq!(
        serialize_fields(&layouts, 0, &values, &mut data),
        Err(SerializationError {
            place: Place::Field { record: 0, field: 4 },
            fault: EncodeFault::Uint24OutOfRange(1 << 24)
        })
    );
    assert_eq!(data, vec![1, 2, 3]);
    assert_eq!(
        to_bytes(&layouts, 0, &Value::Record(values)),
        Err(SerializationError {
            place: Place::Field { record: 0, field: 4 },
            fault: EncodeFault::Uint24OutOfRange(1 << 24)
        })
    );
}

#[test]
fn the_first_failing_field_is_reported() {
    let layouts = scalar_layouts();
    let Value::Record(mut values) = scalar_record() else { unreachable!() };
    values[8] = Value::F2Dot14(F2DOT14::from_scaled(-32769));
    values[4] = Value::Uint24(uint24::from(u32::MAX));
    assert_eq!(
        to_bytes(&layouts, 0, &Value::Record(values.clone())),
        Err(SerializationError {
            place: Place::Field { record: 0, field: 4 },
            fault: EncodeFault::Uint24OutOfRange(u32::MAX)
        })
    );
    values[4] = Value::Uint24(uint24::from(0));
    assert_eq!(
        to_bytes(&layouts, 0, &Value::Record(values)),
        Err(SerializationError {
            place: Place::Field { record: 0, field: 8 },
            fault: EncodeFault::F2Dot14OutOfRange(-32769)
        })
    );
}

fn fault(record: usize, field: usize, fault: EncodeFault) -> Result<Vec<u8>, SerializationError> {
    Err(SerializationError { place: Place::Field { record, field }, fault })
}

#[test]
fn values_must_match_the_schema() {
    let layouts = nested_layouts();
    // a value that is no record, a record with too few fields
    assert_eq!(
        to_bytes(&layouts, 0, &Value::Uint8(1)),
        Err(SerializationError { place: Place::Value, fault: EncodeFault::TypeMismatch })
    );
    assert_eq!(
        to_bytes(&layouts, 0, &Value::Record(vec![Value::Int16(1)])),
        Err(SerializationError { place: Place::Value, fault: EncodeFault::TypeMismatch })
    );
    // no such record
    assert_eq!(
        to_bytes(&layouts, 2, &point(1, 2)),
        Err(SerializationError { place: Place::Value, fault: EncodeFault::MalformedSchema })
    );
    assert_eq!(
        from_bytes(&layouts, 2, &[0; 16]),
        Err(DeserializationError { place: Place::Value, fault: DecodeFault::MalformedSchema })
    );
    // a scalar of another kind
    assert_eq!(
        to_bytes(&layouts, 0, &Value::Record(vec![Value::Int16(1), Value::Uint16(2)])),
        fault(0, 1, EncodeFault::TypeMismatch)
    );
    // a mismatch inside an embedded record is reported at the field that holds it
    let Value::Record(mut fields) = shape(None) else { unreachable!() };
    fields[3] = Value::Record(vec![Value::Int16(0)]);
    assert_eq!(
        to_bytes(&layouts, 1, &Value::Record(fields.clone())),
        fault(1, 3, EncodeFault::TypeMismatch)
    );
    // a mismatch inside a list element is reported in the element's record
    fields[3] = point(0, 0);
    fields[1] = Value::List(vec![point(1, 1), Value::Record(vec![Value::Int16(0), Value::Int8(0)])]);
    assert_eq!(
        to_bytes(&layouts, 1, &Value::Record(fields.clone())),
        fault(0, 1, EncodeFault::TypeMismatch)
    );
    fields[1] = Value::Uint8(0);
    assert_eq!(to_bytes(&layouts, 1, &Value::Record(fields)), fault(1, 1, EncodeFault::TypeMismatch));
}

#[test]
fn offsets_must_not_be_zero() {
    let layouts = nested_layouts();
    let Value::Record(fields) = shape(None) else { unreachable!() };
    let cases = [
        (4, Value::Maybe(Some(0))),
        (5, Value::Offset16(0)),
        (6, Value::Offset32(0)),
        (7, Value::List(vec![Value::Offset16(1), Value::Offset16(0)])),
        (8, Value::List(vec![Value::Offset32(0)])),
    ];
    for (index, value) in cases {
        let mut changed = fields.clone();
        changed[index] = value;
        assert_eq!(
            to_bytes(&layouts, 1, &Value::Record(changed)),
            fault(1, index, EncodeFault::NullOffset)
        );
    }

    // on the wire: a zero parent offset
    let mut bytes = shape_bytes([0, 0]);
    bytes[24] = 0;
    bytes[25] = 0;
    assert_eq!(
        from_bytes(&layouts, 1, &bytes),
        Err(DeserializationError {
            place: Place::Field { record: 1, field: 5 },
            fault: DecodeFault::NullOffset
        })
    );
}

#[test]
fn counts_must_fit_their_header() {
    let layouts = vec![vec![FieldCodec {
        arity: Arity::Counted16,
        item: ItemCodec::Scalar(ScalarKind::Uint8),
    }]];
    let mut items = Vec::new();
    for _ in 0..0xFFFF {
        items.push(Value::Uint8(1));
    }
    let bytes = to_bytes(&layouts, 0, &Value::Record(vec![Value::List(items)])).unwrap();
    assert_eq!(bytes.len(), 2 + 0xFFFF);
    assert_eq!(&bytes[..3], &[0xFF, 0xFF, 0x01]);
    let mut items = Vec::new();
    for _ in 0..0x10000 {
        items.push(Value::Uint8(1));
    }
    assert_eq!(
        to_bytes(&layouts, 0, &Value::Record(vec![Value::List(items)])),
        fault(0, 0, EncodeFault::CountOutOfRange(0x10000))
    );
}

#[test]
fn a_count_that_the_buffer_cannot_satisfy_is_an_error() {
    let layouts = nested_layouts();
    // kind, then a count of three points where only two follow
    let bytes = [0x07, 0x00, 0x03, 0, 1, 0, 2, 0, 3, 0, 4];
    assert_eq!(
        from_bytes(&layouts, 1, &bytes),
        Err(DeserializationError {
            place: Place::Field { record: 0, field: 0 },
            fault: DecodeFault::ShortRead
        })
    );
    // the count header itself is cut short
    assert_eq!(
        from_bytes(&layouts, 1, &[0x07, 0x00]),
        Err(DeserializationError {
            place: Place::Field { record: 1, field: 1 },
            fault: DecodeFault::ShortRead
        })
    );
    // a 32-bit count far beyond the buffer
    let bytes = [0x07, 0x00, 0x00, 0xFF, 0xFF, 0xFF, 0xFF, 1, 2, 3];
    assert_eq!(
        from_bytes(&layouts, 1, &bytes),
        Err(DeserializationError {
            place: Place::Field { record: 1, field: 2 },
            fault: DecodeFault::ShortRead
        })
    );
    assert_eq!(
        from_bytes(&layouts, 1, &[]),
        Err(DeserializationError {
            place: Place::Field { record: 1, field: 0 },
            fault: DecodeFault::ShortRead
        })
    );
}

#[test]
fn a_layout_may_only_embed_earlier_records() {
    let layouts = vec![vec![one(ItemCodec::Record(0))]];
    assert_eq!(
        to_bytes(&layouts, 0, &Value::Record(vec![Value::Record(vec![])])),
        fault(0, 0, EncodeFault::MalformedSchema)
    );
    assert_eq!(
        from_bytes(&layouts, 0, &[0; 4]),
        Err(DeserializationError {
            place: Place::Field { record: 0, field: 0 },
            fault: DecodeFault::MalformedSchema
        })
    );
}

#[test]
fn a_copy_of_a_value_is_equal_to_it() {
    assert_eq!(shape(Some(3)).clone(), shape(Some(3)));
    assert_eq!(scalar_record().clone(), scalar_record());
    assert_eq!(Value::List(vec![]).clone(), Value::List(vec![]));
}
