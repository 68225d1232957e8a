//! Parser tests: shape classification, field order, and error reporting.

use protodef::json::{JsonNumber, JsonValue};
use protodef::syntax::ast::{BitField, BitFields, Container, Field, Mapper, Switch, Type};
use protodef::syntax::errors::{ErrorKind, ValueKind};
use protodef::syntax::parse::{parse, parse_field, parse_type};

fn s(text: &str) -> JsonValue {
    JsonValue::String(text.to_string())
}

fn n(value: i64) -> JsonValue {
    JsonValue::Number(JsonNumber::Int(value))
}

fn b(value: bool) -> JsonValue {
    JsonValue::Bool(value)
}

fn arr(items: Vec<JsonValue>) -> JsonValue {
    JsonValue::Array(items)
}

fn obj(entries: Vec<(&str, JsonValue)>) -> JsonValue {
    JsonValue::Object(entries.into_iter().map(|(k, v)| (k.to_string(), v)).collect())
}

#[test]
fn parse_native() {
    let doc = s("native");
    let should_be = Type::Native;

    let got = parse_type(&doc).unwrap();

    assert_eq!(got, should_be);
}

#[test]
fn parse_named() {
    let doc = s("u32");
    let should_be = Type::Named("u32".into());

    let got = parse_type(&doc).unwrap();

    assert_eq!(got, should_be);
}

#[test]
fn parse_fields_for_simple_container() {
    let doc = arr(vec![
        s("container"),
        arr(vec![
            obj(vec![("name", s("itemCount")), ("type", s("i8"))]),
            obj(vec![("name", s("itemDamage")), ("type", s("i16"))]),
            obj(vec![("name", s("nbtData")), ("type", s("optionalNbt"))]),
        ]),
    ]);
    let should_be = Type::Container(Container {
        fields: vec![
            Field::new("itemCount", Type::Named("i8".into())),
            Field::new("itemDamage", Type::Named("i16".into())),
            Field::new("nbtData", Type::Named("optionalNbt".into())),
        ],
    });

    let got = parse_type(&doc).unwrap();

    assert_eq!(got, should_be);
}

#[test]
fn parse_mapper() {
    let doc = arr(vec![
        s("mapper"),
        obj(vec![
            ("type", s("varint")),
            (
                "mappings",
                obj(vec![("0x00", s("set_protocol")), ("0xfe", s("legacy_server_list_ping"))]),
            ),
        ]),
    ]);
    let should_be = Type::Mapper(Mapper);

    let got = parse_type(&doc).unwrap();

    assert_eq!(got, should_be);
}

#[test]
fn parse_switch() {
    let doc = arr(vec![
        s("switch"),
        obj(vec![
            ("compareTo", s("blockId")),
            ("fields", obj(vec![("-1", s("void"))])),
            ("default", arr(vec![s("container"), arr(vec![])])),
        ]),
    ]);
    let should_be = Type::Switch(Switch {
        compare_to: "blockId".into(),
        variants: vec![(-1, Type::Named("void".into()))],
        default: Some(Box::new(Type::Container(Container { fields: Vec::new() }))),
    });

    let got = parse_type(&doc).unwrap();

    assert_eq!(got, should_be);
}

#[test]
fn parse_pstring() {
    let doc = arr(vec![s("pstring"), obj(vec![("countType", s("varint"))])]);
    let should_be = Type::LengthPrefixedString {
        count_type: Box::new(Type::Named("varint".into())),
    };

    let got = parse_type(&doc).unwrap();

    assert_eq!(got, should_be);
}

#[test]
fn container_with_switch() {
    let doc = arr(vec![
        s("container"),
        arr(vec![
            obj(vec![("name", s("name")), ("type", s("varint"))]),
            obj(vec![
                ("name", s("params")),
                (
                    "type",
                    arr(vec![
                        s("switch"),
                        obj(vec![("compareTo", s("name")), ("fields", obj(vec![]))]),
                    ]),
                ),
            ]),
        ]),
    ]);
    let should_be = Type::Container(Container {
        fields: vec![
            Field::new("name", Type::Named("varint".into())),
            Field::new(
                "params",
                Type::Switch(Switch {
                    compare_to: "name".into(),
                    variants: Vec::new(),
                    default: None,
                }),
            ),
        ],
    });

    let got = parse_type(&doc).unwrap();

    assert_eq!(got, should_be);
}

#[test]
fn parse_bit_fields() {
    let doc = arr(vec![
        s("bitfield"),
        arr(vec![
            obj(vec![("name", s("x")), ("size", n(26)), ("signed", b(true))]),
            obj(vec![("name", s("y")), ("size", n(12)), ("signed", b(true))]),
            obj(vec![("name", s("z")), ("size", n(26)), ("signed", b(true))]),
        ]),
    ]);
    let should_be = Type::BitFields(BitFields {
        fields: vec![
            BitField { name: "x".into(), size: 26, signed: true },
            BitField { name: "y".into(), size: 12, signed: true },
            BitField { name: "z".into(), size: 26, signed: true },
        ],
    });

    let got = parse_type(&doc).unwrap();

    assert_eq!(got, should_be);
}

#[test]
fn parse_anon_field() {
    let doc = obj(vec![
        ("anon", b(true)),
        (
            "type",
            arr(vec![
                s("bitfield"),
                arr(vec![obj(vec![("name", s("type")), ("size", n(3)), ("signed", b(false))])]),
            ]),
        ),
    ]);
    let should_be = Field {
        name: None,
        ty: Type::BitFields(BitFields {
            fields: vec![BitField { name: "type".into(), size: 3, signed: false }],
        }),
    };

    let got = parse_field(&doc).unwrap();

    assert_eq!(got, should_be);
}

#[test]
fn document_without_types_key_is_empty() {
    let got = parse(&obj(vec![("version", s("1.0"))])).unwrap();
    assert_eq!(got.types.len(), 0);

    let got = parse(&JsonValue::Null).unwrap();
    assert_eq!(got.types.len(), 0);
}

#[test]
fn malformed_container_reports_arity() {
    let err = parse_type(&arr(vec![s("container")])).unwrap_err();
    assert_eq!(err.kind, ErrorKind::IncorrectArrayLength { expected: 2, found: 1 });
    assert_eq!(err.context, vec!["container".to_string()]);

    let doc = obj(vec![("types", obj(vec![("thing", arr(vec![s("container")]))]))]);

    let err = parse(&doc).unwrap_err();

    assert_eq!(err.kind, ErrorKind::IncorrectArrayLength { expected: 2, found: 1 });
    assert_eq!(
        err.context,
        vec!["types".to_string(), "thing".to_string(), "container".to_string()]
    );
    assert_eq!(
        err.message(),
        "At \"types > thing > container\" incorrect array length, expected 2 but found 1"
    );
}

#[test]
fn arity_error_without_a_function_name_has_no_breadcrumb() {
    let err = parse_type(&arr(vec![])).unwrap_err();
    assert_eq!(err.kind, ErrorKind::IncorrectArrayLength { expected: 2, found: 0 });
    assert_eq!(err.context, Vec::<String>::new());

    let err = parse_type(&arr(vec![n(1), n(2), n(3)])).unwrap_err();
    assert_eq!(err.kind, ErrorKind::IncorrectArrayLength { expected: 2, found: 3 });
    assert_eq!(err.context, Vec::<String>::new());
}

#[test]
fn unknown_function_is_rejected() {
    let doc = arr(vec![s("frobnicate"), obj(vec![])]);

    let err = parse_type(&doc).unwrap_err();

    assert_eq!(err.kind, ErrorKind::UnknownFunction { name: "frobnicate".into() });
    assert_eq!(err.message(), "unable to handle a \"frobnicate\"");
}

#[test]
fn missing_field_is_reported() {
    let doc = arr(vec![s("container"), arr(vec![obj(vec![("type", s("u8"))])])]);

    let err = parse_type(&doc).unwrap_err();

    assert_eq!(err.kind, ErrorKind::MissingField { name: "name".into() });
    assert_eq!(err.context, vec!["container".to_string(), "0".to_string(), "field".to_string()]);
}

#[test]
fn switch_key_must_be_an_integer() {
    let doc = arr(vec![
        s("switch"),
        obj(vec![("compareTo", s("x")), ("fields", obj(vec![("0x01", s("u8"))]))]),
    ]);

    let err = parse_type(&doc).unwrap_err();

    assert_eq!(err.kind, ErrorKind::ParseInt);
    assert_eq!(err.message(), "At \"switch\" unable to parse the value as an integer");
}

#[test]
fn incorrect_type_is_reported() {
    let doc = obj(vec![("types", n(42))]);

    let err = parse(&doc).unwrap_err();

    assert_eq!(
        err.kind,
        ErrorKind::IncorrectType { expected: vec![ValueKind::Object], found: ValueKind::Integer }
    );
    assert_eq!(err.message(), "At \"types\" incorrect type, expected Object but found Integer");
}

#[test]
fn bitfield_size_must_be_positive() {
    let doc = arr(vec![
        s("bitfield"),
        arr(vec![obj(vec![("name", s("x")), ("size", n(0)), ("signed", b(true))])]),
    ]);

    let err = parse_type(&doc).unwrap_err();

    assert_eq!(
        err.kind,
        ErrorKind::IncorrectType {
            expected: vec![ValueKind::Integer],
            found: ValueKind::Integer
        }
    );
}

#[test]
fn bitfield_size_must_be_a_number() {
    let doc = arr(vec![
        s("bitfield"),
        arr(vec![obj(vec![("name", s("x")), ("size", s("big")), ("signed", b(true))])]),
    ]);

    let err = parse_type(&doc).unwrap_err();

    assert_eq!(
        err.kind,
        ErrorKind::IncorrectType {
            expected: vec![ValueKind::Integer, ValueKind::Float],
            found: ValueKind::String
        }
    );
    assert_eq!(
        err.message(),
        "At \"bitfield > field > 0 > size\" incorrect type, expected one of Integer, Float but found String"
    );
}

#[test]
fn bitfield_size_rejects_a_fraction() {
    let doc = arr(vec![
        s("bitfield"),
        arr(vec![obj(vec![
            ("name", s("x")),
            ("size", JsonValue::Number(JsonNumber::Float)),
            ("signed", b(true)),
        ])]),
    ]);

    let err = parse_type(&doc).unwrap_err();

    assert_eq!(
        err.kind,
        ErrorKind::IncorrectType { expected: vec![ValueKind::Integer], found: ValueKind::Float }
    );
}

#[test]
fn bitfield_size_rejects_a_huge_unsigned() {
    let doc = arr(vec![
        s("bitfield"),
        arr(vec![obj(vec![
            ("name", s("x")),
            ("size", JsonValue::Number(JsonNumber::BigUint(u64::MAX))),
            ("signed", b(true)),
        ])]),
    ]);

    let err = parse_type(&doc).unwrap_err();

    // A number that does not fit a signed 64-bit value is still an
    // integer by kind, just not a usable bit count.
    assert_eq!(
        err.kind,
        ErrorKind::IncorrectType { expected: vec![ValueKind::Integer], found: ValueKind::Integer }
    );
}

#[test]
fn type_declaration_must_be_string_or_array() {
    let doc = JsonValue::Bool(true);

    let err = parse_type(&doc).unwrap_err();

    assert_eq!(
        err.kind,
        ErrorKind::IncorrectType { expected: vec![ValueKind::Array], found: ValueKind::Bool }
    );
}

#[test]
fn duplicate_type_names_keep_first_position() {
    let doc = obj(vec![(
        "types",
        obj(vec![("a", s("native")), ("b", s("native")), ("a", s("b"))]),
    )]);

    let got = parse(&doc).unwrap();

    assert_eq!(
        got.types,
        vec![
            ("a".to_string(), Type::Named("b".into())),
            ("b".to_string(), Type::Native),
        ]
    );
}
