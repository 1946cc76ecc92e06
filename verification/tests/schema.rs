use otspec::codec::{
    bind_schema, expand_derive_serialize, field_name, field_wrapper, scalar_kind, Arity,
    FieldCodec, ItemCodec, ScalarKind, Wrapper,
};
use otspec::error::{Place, SchemaDefinitionError};
use otspec::schema::{
    expand_tables, expect_group, expect_ident, has_pragma, keyword, special_type, Delimiter,
    FieldDecl, Pragma, RecordSchema, TableFlags, TokenTree, WireKind,
};

fn id(word: &str) -> TokenTree {
    TokenTree::Ident(word.to_string())
}

fn group(delimiter: Delimiter, stream: Vec<TokenTree>) -> TokenTree {
    TokenTree::Group(delimiter, stream)
}

fn pragma(word: &str) -> TokenTree {
    group(Delimiter::Bracket, vec![id(word)])
}

fn wrapped(word: &str) -> TokenTree {
    group(Delimiter::Parenthesis, vec![id(word)])
}

fn plain_flags() -> TableFlags {
    TableFlags { embedded: false, debug: true, default: false, serialize: true, deserialize: true }
}

fn field(kind: WireKind, element: &str, name: &str) -> FieldDecl {
    FieldDecl {
        name: name.to_string(),
        kind,
        element: element.to_string(),
        offset_base: false,
        embed: false,
    }
}

/// The two records of the item variation data, as the notation declares them.
fn otvar_tokens() -> Vec<TokenTree> {
    vec![
        id("RegionAxisCoordinates"),
        group(
            Delimiter::Brace,
            vec![
                id("F2DOT14"),
                id("startCoord"),
                id("F2DOT14"),
                id("peakCoord"),
                id("F2DOT14"),
                id("endCoord"),
            ],
        ),
        id("ItemVariationDataHeader"),
        group(
            Delimiter::Brace,
            vec![
                id("uint16"),
                id("itemCount"),
                id("uint16"),
                id("shortDeltaCount"),
                id("Counted"),
                wrapped("uint16"),
                id("regionIndexes"),
            ],
        ),
    ]
}

#[test]
fn expand_tables_reads_records_in_order() {
    let records = expand_tables(&otvar_tokens()).unwrap();
    assert_eq!(
        records,
        vec![
            RecordSchema {
                name: "RegionAxisCoordinates".to_string(),
                flags: plain_flags(),
                fields: vec![
                    field(WireKind::Scalar, "F2DOT14", "startCoord"),
                    field(WireKind::Scalar, "F2DOT14", "peakCoord"),
                    field(WireKind::Scalar, "F2DOT14", "endCoord"),
                ],
            },
            RecordSchema {
                name: "ItemVariationDataHeader".to_string(),
                flags: plain_flags(),
                fields: vec![
                    field(WireKind::Scalar, "uint16", "itemCount"),
                    field(WireKind::Scalar, "uint16", "shortDeltaCount"),
                    field(WireKind::Counted, "uint16", "regionIndexes"),
                ],
            },
        ]
    );
}

#[test]
fn expand_tables_of_nothing_is_no_record() {
    assert_eq!(expand_tables(&vec![]), Ok(vec![]));
    assert_eq!(
        expand_tables(&vec![id("empty"), group(Delimiter::Brace, vec![])]),
        Ok(vec![RecordSchema { name: "empty".to_string(), flags: plain_flags(), fields: vec![] }])
    );
}

#[test]
fn expand_tables_knows_every_keyword() {
    let tokens = vec![
        id("all"),
        group(
            Delimiter::Brace,
            vec![
                id("Maybe"),
                wrapped("Sub"),
                id("a"),
                id("Counted"),
                wrapped("uint8"),
                id("b"),
                id("Counted32"),
                wrapped("uint8"),
                id("c"),
                id("Offset16"),
                wrapped("Sub"),
                id("d"),
                id("Offset32"),
                wrapped("Sub"),
                id("e"),
                id("CountedOffset16"),
                wrapped("Sub"),
                id("f"),
                id("CountedOffset32"),
                wrapped("Sub"),
                id("g"),
                id("Fixed"),
                id("h"),
            ],
        ),
    ];
    let records = expand_tables(&tokens).unwrap();
    assert_eq!(
        records[0].fields,
        vec![
            field(WireKind::Maybe, "Sub", "a"),
            field(WireKind::Counted, "uint8", "b"),
            field(WireKind::Counted32, "uint8", "c"),
            field(WireKind::Offset16, "Sub", "d"),
            field(WireKind::Offset32, "Sub", "e"),
            field(WireKind::CountedOffset16, "Sub", "f"),
            field(WireKind::CountedOffset32, "Sub", "g"),
            field(WireKind::Scalar, "Fixed", "h"),
        ]
    );
    assert_eq!(
        bind_schema(&records),
        Ok(vec![vec![
            FieldCodec { arity: Arity::One, item: ItemCodec::Maybe },
            FieldCodec { arity: Arity::Counted16, item: ItemCodec::Scalar(ScalarKind::Uint8) },
            FieldCodec { arity: Arity::Counted32, item: ItemCodec::Scalar(ScalarKind::Uint8) },
            FieldCodec { arity: Arity::One, item: ItemCodec::Offset16 },
            FieldCodec { arity: Arity::One, item: ItemCodec::Offset32 },
            FieldCodec { arity: Arity::Counted16, item: ItemCodec::Offset16 },
            FieldCodec { arity: Arity::Counted16, item: ItemCodec::Offset32 },
            FieldCodec { arity: Arity::One, item: ItemCodec::Scalar(ScalarKind::Fixed) },
        ]])
    );
}

#[test]
fn expand_tables_takes_the_first_token_of_a_wrapped_type() {
    let tokens = vec![
        id("t"),
        group(
            Delimiter::Brace,
            vec![
                id("Counted"),
                group(Delimiter::Parenthesis, vec![id("uint16"), TokenTree::Punct(','), id("x")]),
                id("list"),
            ],
        ),
    ];
    assert_eq!(
        expand_tables(&tokens).unwrap()[0].fields,
        vec![field(WireKind::Counted, "uint16", "list")]
    );
}

#[test]
fn expand_tables_applies_pragmas() {
    let tokens = vec![
        id("first"),
        pragma("embedded"),
        pragma("nodebug"),
        pragma("default"),
        group(
            Delimiter::Brace,
            vec![
                pragma("offset_base"),
                id("uint16"),
                id("format"),
                pragma("embed"),
                pragma("offset_base"),
                id("Offset16"),
                wrapped("Sub"),
                id("sub"),
                id("uint8"),
                id("last"),
            ],
        ),
        id("second"),
        pragma("noserialize"),
        pragma("nodeserialize"),
        group(Delimiter::Brace, vec![]),
    ];
    let records = expand_tables(&tokens).unwrap();
    assert_eq!(
        records[0].flags,
        TableFlags {
            embedded: true,
            debug: false,
            default: true,
            serialize: true,
            deserialize: true
        }
    );
    assert_eq!(
        records[1].flags,
        TableFlags {
            embedded: false,
            debug: true,
            default: false,
            serialize: false,
            deserialize: false
        }
    );
    let fields = &records[0].fields;
    assert_eq!((fields[0].offset_base, fields[0].embed), (true, false));
    assert_eq!((fields[1].offset_base, fields[1].embed), (true, true));
    assert_eq!((fields[2].offset_base, fields[2].embed), (false, false));
    assert_eq!(fields[1], FieldDecl {
        name: "sub".to_string(),
        kind: WireKind::Offset16,
        element: "Sub".to_string(),
        offset_base: true,
        embed: true,
    });
}

#[test]
fn expand_tables_reports_each_error() {
    // a table name must be an identifier
    assert_eq!(
        expand_tables(&vec![TokenTree::Literal("3".to_string())]),
        Err(SchemaDefinitionError::ExpectedIdent)
    );
    // a name with nothing after it
    assert_eq!(expand_tables(&vec![id("t")]), Err(SchemaDefinitionError::UnexpectedEnd));
    // something other than braces after the name
    assert_eq!(
        expand_tables(&vec![id("t"), id("u")]),
        Err(SchemaDefinitionError::ExpectedGroup)
    );
    assert_eq!(
        expand_tables(&vec![id("t"), group(Delimiter::Parenthesis, vec![])]),
        Err(SchemaDefinitionError::ExpectedGroup)
    );
    // a pragma that no record takes
    assert_eq!(
        expand_tables(&vec![id("t"), pragma("bogus"), group(Delimiter::Brace, vec![])]),
        Err(SchemaDefinitionError::UnknownPragma)
    );
    assert_eq!(
        expand_tables(&vec![id("t"), pragma("embed"), group(Delimiter::Brace, vec![])]),
        Err(SchemaDefinitionError::UnknownPragma)
    );
    assert_eq!(
        expand_tables(&vec![
            id("t"),
            group(Delimiter::Bracket, vec![id("nodebug"), id("default")]),
            group(Delimiter::Brace, vec![])
        ]),
        Err(SchemaDefinitionError::UnknownPragma)
    );
    // a pragma that no field takes
    assert_eq!(
        expand_tables(&vec![
            id("t"),
            group(Delimiter::Brace, vec![pragma("nodebug"), id("uint8"), id("x")])
        ]),
        Err(SchemaDefinitionError::UnknownPragma)
    );
    // a field pragma with no field after it
    assert_eq!(
        expand_tables(&vec![
            id("t"),
            group(Delimiter::Brace, vec![id("uint8"), id("x"), pragma("embed")])
        ]),
        Err(SchemaDefinitionError::DanglingPragma)
    );
    // a type with no name
    assert_eq!(
        expand_tables(&vec![id("t"), group(Delimiter::Brace, vec![id("uint8")])]),
        Err(SchemaDefinitionError::UnexpectedEnd)
    );
    assert_eq!(
        expand_tables(&vec![
            id("t"),
            group(Delimiter::Brace, vec![id("uint8"), TokenTree::Punct(';')])
        ]),
        Err(SchemaDefinitionError::ExpectedIdent)
    );
    // a keyword without its parentheses, with empty ones, with a non-type in them
    assert_eq!(
        expand_tables(&vec![id("t"), group(Delimiter::Brace, vec![id("Counted"), id("x")])]),
        Err(SchemaDefinitionError::ExpectedGroup)
    );
    assert_eq!(
        expand_tables(&vec![
            id("t"),
            group(
                Delimiter::Brace,
                vec![id("Counted"), group(Delimiter::Parenthesis, vec![]), id("x")]
            )
        ]),
        Err(SchemaDefinitionError::MissingElementType)
    );
    assert_eq!(
        expand_tables(&vec![
            id("t"),
            group(
                Delimiter::Brace,
                vec![
                    id("Counted"),
                    group(Delimiter::Parenthesis, vec![TokenTree::Literal("1".to_string())]),
                    id("x")
                ]
            )
        ]),
        Err(SchemaDefinitionError::ExpectedIdent)
    );
    assert_eq!(
        expand_tables(&vec![id("t"), group(Delimiter::Brace, vec![id("Maybe"), wrapped("T")])]),
        Err(SchemaDefinitionError::UnexpectedEnd)
    );
    // the first error wins, and no record is returned
    assert_eq!(
        expand_tables(&vec![
            id("good"),
            group(Delimiter::Brace, vec![id("uint8"), id("x")]),
            id("bad"),
            pragma("bogus"),
        ]),
        Err(SchemaDefinitionError::UnknownPragma)
    );
}

#[test]
fn token_helpers() {
    let bracket = pragma("offset_base");
    assert_eq!(has_pragma(Some(&bracket)), Some(Pragma::OffsetBase));
    assert_eq!(has_pragma(Some(&pragma("embedded"))), Some(Pragma::Embedded));
    assert_eq!(has_pragma(Some(&pragma("nodebug"))), Some(Pragma::NoDebug));
    assert_eq!(has_pragma(Some(&pragma("noserialize"))), Some(Pragma::NoSerialize));
    assert_eq!(has_pragma(Some(&pragma("nodeserialize"))), Some(Pragma::NoDeserialize));
    assert_eq!(has_pragma(Some(&pragma("default"))), Some(Pragma::Default));
    assert_eq!(has_pragma(Some(&pragma("embed"))), Some(Pragma::Embed));
    assert_eq!(has_pragma(Some(&pragma("other"))), Some(Pragma::Unknown));
    assert_eq!(has_pragma(Some(&group(Delimiter::Bracket, vec![]))), Some(Pragma::Unknown));
    assert_eq!(has_pragma(Some(&wrapped("embed"))), None);
    assert_eq!(has_pragma(Some(&id("embed"))), None);
    assert_eq!(has_pragma(None), None);

    assert_eq!(expect_ident(Some(&id("name"))), Ok("name".to_string()));
    assert_eq!(expect_ident(Some(&bracket)), Err(SchemaDefinitionError::ExpectedIdent));
    assert_eq!(expect_ident(None), Err(SchemaDefinitionError::UnexpectedEnd));

    let inner = vec![id("a"), id("b")];
    let braces = group(Delimiter::Brace, vec![id("a"), id("b")]);
    assert_eq!(expect_group(Some(&braces), Delimiter::Brace), Ok(&inner));
    assert_eq!(
        expect_group(Some(&braces), Delimiter::Parenthesis),
        Err(SchemaDefinitionError::ExpectedGroup)
    );
    assert_eq!(
        expect_group(Some(&id("a")), Delimiter::Brace),
        Err(SchemaDefinitionError::ExpectedGroup)
    );
    assert_eq!(expect_group(None, Delimiter::Brace), Err(SchemaDefinitionError::UnexpectedEnd));

    assert_eq!(keyword(&"Maybe".to_string()), Some(WireKind::Maybe));
    assert_eq!(keyword(&"CountedOffset32".to_string()), Some(WireKind::CountedOffset32));
    assert_eq!(keyword(&"maybe".to_string()), None);
}

#[test]
fn special_types() {
    assert_eq!(special_type(&"Fixed".to_string()), Some("f32"));
    assert_eq!(special_type(&"F2DOT14".to_string()), Some("f32"));
    assert_eq!(special_type(&"LONGDATETIME".to_string()), Some("chrono::NaiveDateTime"));
    assert_eq!(special_type(&"uint16".to_string()), None);
    assert_eq!(special_type(&"fixed".to_string()), None);
}

#[test]
fn scalar_names() {
    let expected = [
        ("uint8", ScalarKind::Uint8),
        ("int8", ScalarKind::Int8),
        ("uint16", ScalarKind::Uint16),
        ("int16", ScalarKind::Int16),
        ("uint24", ScalarKind::Uint24),
        ("uint32", ScalarKind::Uint32),
        ("int32", ScalarKind::Int32),
        ("Fixed", ScalarKind::Fixed),
        ("F2DOT14", ScalarKind::F2Dot14),
        ("Version16Dot16", ScalarKind::Version16Dot16),
        ("LONGDATETIME", ScalarKind::LongDateTime),
        ("FWORD", ScalarKind::Int16),
        ("UFWORD", ScalarKind::Uint16),
        ("GlyphID", ScalarKind::Uint16),
    ];
    for (word, kind) in expected {
        assert_eq!(scalar_kind(&word.to_string()), Some(kind));
    }
    assert_eq!(scalar_kind(&"float".to_string()), None);
}

#[test]
fn binding_resolves_earlier_records() {
    let mut tokens = otvar_tokens();
    tokens.push(id("Region"));
    tokens.push(group(
        Delimiter::Brace,
        vec![
            id("Counted"),
            wrapped("RegionAxisCoordinates"),
            id("axes"),
            id("ItemVariationDataHeader"),
            id("header"),
        ],
    ));
    let records = expand_tables(&tokens).unwrap();
    let layouts = bind_schema(&records).unwrap();
    assert_eq!(layouts.len(), 3);
    assert_eq!(
        layouts[0],
        vec![FieldCodec { arity: Arity::One, item: ItemCodec::Scalar(ScalarKind::F2Dot14) }; 3]
    );
    assert_eq!(
        layouts[2],
        vec![
            FieldCodec { arity: Arity::Counted16, item: ItemCodec::Record(0) },
            FieldCodec { arity: Arity::One, item: ItemCodec::Record(1) },
        ]
    );
    assert_eq!(expand_derive_serialize(&records, 2), Ok(layouts[2].clone()));
    assert_eq!(expand_derive_serialize(&records, 0), Ok(layouts[0].clone()));
    assert_eq!(expand_derive_serialize(&records, 3), Err(SchemaDefinitionError::NoSuchRecord));
}

#[test]
fn binding_rejects_unknown_and_later_types() {
    let unknown = expand_tables(&vec![
        id("t"),
        group(Delimiter::Brace, vec![id("float"), id("x")]),
    ])
    .unwrap();
    assert_eq!(bind_schema(&unknown), Err(SchemaDefinitionError::UnknownType));
    assert_eq!(expand_derive_serialize(&unknown, 0), Err(SchemaDefinitionError::UnknownType));

    // a record cannot hold itself, nor a record declared after it
    let recursive = expand_tables(&vec![
        id("t"),
        group(Delimiter::Brace, vec![id("Counted"), wrapped("t"), id("x")]),
    ])
    .unwrap();
    assert_eq!(bind_schema(&recursive), Err(SchemaDefinitionError::UnknownType));
    let forward = expand_tables(&vec![
        id("a"),
        group(Delimiter::Brace, vec![id("b"), id("x")]),
        id("b"),
        group(Delimiter::Brace, vec![]),
    ])
    .unwrap();
    assert_eq!(bind_schema(&forward), Err(SchemaDefinitionError::UnknownType));
}

#[test]
fn a_record_without_the_capability_has_no_serializer() {
    let records = expand_tables(&vec![
        id("t"),
        pragma("noserialize"),
        group(Delimiter::Brace, vec![id("uint8"), id("x")]),
    ])
    .unwrap();
    assert_eq!(
        expand_derive_serialize(&records, 0),
        Err(SchemaDefinitionError::CapabilityDisabled)
    );
    assert!(bind_schema(&records).is_ok());
}

#[test]
fn render_tables_writes_the_record_types() {
    let records = expand_tables(&otvar_tokens()).unwrap();
    let expected = "/// Low-level structure used for serializing/deserializing table\n\
        #[allow(missing_docs, non_snake_case, non_camel_case_types)]\n\
        #[derive(otspec_macros::Serialize, otspec_macros::Deserialize, Debug,  PartialEq, Clone)]\n\
        \n\
        pub struct RegionAxisCoordinates {\
        #[otspec(with = \"F2DOT14\")]\n\
        pub startCoord : f32,\n\
        #[otspec(with = \"F2DOT14\")]\n\
        pub peakCoord : f32,\n\
        #[otspec(with = \"F2DOT14\")]\n\
        pub endCoord : f32,\n\
        }\
        /// Low-level structure used for serializing/deserializing table\n\
        #[allow(missing_docs, non_snake_case, non_camel_case_types)]\n\
        #[derive(otspec_macros::Serialize, otspec_macros::Deserialize, Debug,  PartialEq, Clone)]\n\
        \n\
        pub struct ItemVariationDataHeader {\
        pub itemCount : uint16,\n\
        pub shortDeltaCount : uint16,\n\
        #[otspec(with = \"Counted\")]\n\
        pub regionIndexes : Vec<uint16>,\n\
        }";
    assert_eq!(otspec::schema::render_tables(&records), expected);
    assert_eq!(otspec::schema::render_tables(&vec![]), "");
}

#[test]
fn render_tables_writes_flags_and_pragmas() {
    let tokens = vec![
        id("T"),
        pragma("embedded"),
        pragma("nodebug"),
        pragma("noserialize"),
        pragma("nodeserialize"),
        pragma("default"),
        group(
            Delimiter::Brace,
            vec![
                pragma("offset_base"),
                id("Maybe"),
                wrapped("A"),
                id("a"),
                pragma("embed"),
                id("Counted32"),
                wrapped("B"),
                id("b"),
                id("Offset16"),
                wrapped("C"),
                id("c"),
                id("Offset32"),
                wrapped("D"),
                id("d"),
                id("CountedOffset16"),
                wrapped("E"),
                id("e"),
                id("CountedOffset32"),
                wrapped("F"),
                id("f"),
                id("LONGDATETIME"),
                id("g"),
            ],
        ),
    ];
    let records = expand_tables(&tokens).unwrap();
    let expected = "/// Low-level structure used for serializing/deserializing table\n\
        #[allow(missing_docs, non_snake_case, non_camel_case_types)]\n\
        #[derive(   Default, PartialEq, Clone)]\n\
        #[otspec(embedded)]\n\
        pub struct T {\
        #[otspec(offset_base)]pub a : Option<A>,\n\
        #[otspec(embed)]#[otspec(with = \"Counted32\")]\n\
        pub b : Vec<B>,\n\
        pub c : Offset16<C>,\n\
        pub d : Offset32<D>,\n\
        #[otspec(with = \"Counted\")]\n\
        pub e : VecOffset16<E>,\n\
        #[otspec(with = \"Counted\")]\n\
        pub f : VecOffset32<F>,\n\
        #[otspec(with = \"LONGDATETIME\")]\n\
        pub g : chrono::NaiveDateTime,\n\
        }";
    assert_eq!(otspec::schema::render_tables(&records), expected);
}

#[test]
fn field_names_and_wrappers() {
    let records = expand_tables(&otvar_tokens()).unwrap();
    assert_eq!(
        field_name(&records, Place::Field { record: 1, field: 2 }),
        Some(&"regionIndexes".to_string())
    );
    assert_eq!(field_name(&records, Place::Field { record: 1, field: 3 }), None);
    assert_eq!(field_name(&records, Place::Field { record: 2, field: 0 }), None);
    assert_eq!(field_name(&records, Place::Value), None);
    assert_eq!(field_wrapper(None), Wrapper::Direct);
    assert_eq!(field_wrapper(Some(&"Counted".to_string())), Wrapper::Counted);
    assert_eq!(field_wrapper(Some(&"F2DOT14".to_string())), Wrapper::Named);
}
