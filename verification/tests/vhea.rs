use otspec::codec::{bind_schema, FieldCodec};
use otspec::de::from_bytes;
use otspec::schema::{expand_tables, Delimiter, TokenTree};
use otspec::ser::to_bytes;
use otspec::value::Value;

fn ident(word: &str) -> TokenTree {
    TokenTree::Ident(word.to_string())
}

/// The layouts of the schema that declares the `vhea` table.
fn vhea_layouts() -> Vec<Vec<FieldCodec>> {
    let fields = vec![
        ("uint16", "majorVersion"),
        ("uint16", "minorVersion"),
        ("int16", "vertTypoAscender"),
        ("int16", "vertTypoDescender"),
        ("int16", "vertTypoLineGap"),
        ("int16", "advanceHeightMax"),
        ("int16", "minTopSideBearing"),
        ("int16", "minBottomSideBearing"),
        ("int16", "yMaxExtent"),
        ("int16", "caretSlopeRise"),
        ("int16", "caretSlopeRun"),
        ("int16", "caretOffset"),
        ("int16", "reserved0"),
        ("int16", "reserved1"),
        ("int16", "reserved2"),
        ("int16", "reserved3"),
        ("int16", "metricDataFormat"),
        ("uint16", "numberOfHMetrics"),
    ];
    let mut body = Vec::new();
    for (ty, name) in fields {
        body.push(ident(ty));
        body.push(ident(name));
    }
    let tokens = vec![ident("vhea"), TokenTree::Group(Delimiter::Brace, body)];
    let records = expand_tables(&tokens).unwrap();
    assert_eq!(records.len(), 1);
    assert_eq!(records[0].name, "vhea");
    assert_eq!(records[0].fields.len(), 18);
    bind_schema(&records).unwrap()
}

fn vhea_value() -> Value {
    Value::Record(vec![
        Value::Uint16(1),
        Value::Uint16(0),
        Value::Int16(705),
        Value::Int16(-180),
        Value::Int16(0),
        Value::Int16(1311),
        Value::Int16(-382),
        Value::Int16(-382),
        Value::Int16(1245),
        Value::Int16(1),
        Value::Int16(0),
        Value::Int16(0),
        Value::Int16(0),
        Value::Int16(0),
        Value::Int16(0),
        Value::Int16(0),
        Value::Int16(0),
        Value::Uint16(1117),
    ])
}

#[test]
fn vhea_ser() {
    let fvhea = vhea_value();
    let binary_vhea = vec![
        0x00, 0x01, 0x00, 0x00, 0x02, 0xc1, 0xff, 0x4c, 0x00, 0x00, 0x05, 0x1f, 0xfe, 0x82,
        0xfe, 0x82, 0x04, 0xdd, 0x00, 0x01, 0x00, 0x00, 0x00, 0x00, 0x00, 0x00, 0x00, 0x00,
        0x00, 0x00, 0x00, 0x00, 0x00, 0x00, 0x04, 0x5d,
    ];
    assert_eq!(to_bytes(&vhea_layouts(), 0, &fvhea).unwrap(), binary_vhea);
}

#[test]
fn vhea_de() {
    let fhhea = vhea_value();
    let binary_vhea = vec![
        0x00, 0x01, 0x00, 0x00, 0x02, 0xc1, 0xff, 0x4c, 0x00, 0x00, 0x05, 0x1f, 0xfe, 0x82,
        0xfe, 0x82, 0x04, 0xdd, 0x00, 0x01, 0x00, 0x00, 0x00, 0x00, 0x00, 0x00, 0x00, 0x00,
        0x00, 0x00, 0x00, 0x00, 0x00, 0x00, 0x04, 0x5d,
    ];
    let deserialized: Value = from_bytes(&vhea_layouts(), 0, &binary_vhea).unwrap();
    assert_eq!(deserialized, fhhea);
}
