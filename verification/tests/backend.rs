//! Generator tests: import deduplication, definition order, naming.

use protodef::backend::{formatted_or_original, generate_rust, is_generatable, RustItem};
use protodef::lowering::analysis::lower;
use protodef::syntax::ast::{BitField, BitFields, Container, Field, Protocol, Type};

#[test]
fn one_import_and_one_struct() {
    let protocol = Protocol {
        types: vec![
            ("i8".to_string(), Type::Native),
            (
                "pair".to_string(),
                Type::Container(Container {
                    fields: vec![
                        Field::new("a", Type::Named("i8".into())),
                        Field::new("b", Type::Named("i8".into())),
                    ],
                }),
            ),
        ],
    };

    let unit = lower(&protocol).unwrap();
    assert!(is_generatable(&unit));
    let module = generate_rust(&unit);

    // `i8` is referenced twice but imported once; `pair` is the only
    // definition, with its fields in declaration order.
    assert_eq!(module.imports, vec!["i8".to_string()]);
    assert_eq!(
        module.items,
        vec![RustItem::Struct {
            name: "pair".to_string(),
            fields: vec![
                ("a".to_string(), "i8".to_string()),
                ("b".to_string(), "i8".to_string()),
            ],
        }]
    );
}

#[test]
fn inline_types_get_synthetic_names() {
    let protocol = Protocol {
        types: vec![(
            "outer".to_string(),
            Type::Container(Container {
                fields: vec![Field::new(
                    "inner",
                    Type::Container(Container { fields: Vec::new() }),
                )],
            }),
        )],
    };

    let unit = lower(&protocol).unwrap();
    let module = generate_rust(&unit);

    assert_eq!(module.imports, Vec::<String>::new());
    assert_eq!(
        module.items,
        vec![
            RustItem::Struct { name: "AnonymousType1".to_string(), fields: Vec::new() },
            RustItem::Struct {
                name: "outer".to_string(),
                fields: vec![("inner".to_string(), "AnonymousType1".to_string())],
            },
        ]
    );
}

#[test]
fn synthetic_names_avoid_registered_names() {
    // A registered name shaped like a synthetic one: the synthetic family
    // is padded until it is longer than every registered name, so the
    // inline node cannot collide with it.
    let protocol = Protocol {
        types: vec![
            ("AnonymousType1".to_string(), Type::Native),
            (
                "outer".to_string(),
                Type::Container(Container {
                    fields: vec![
                        Field::new("f", Type::Named("AnonymousType1".into())),
                        Field::new("g", Type::Container(Container { fields: Vec::new() })),
                    ],
                }),
            ),
        ],
    };

    let unit = lower(&protocol).unwrap();
    let module = generate_rust(&unit);

    assert_eq!(module.imports, vec!["AnonymousType1".to_string()]);
    assert_eq!(
        module.items,
        vec![
            RustItem::Struct { name: "AnonymousType__2".to_string(), fields: Vec::new() },
            RustItem::Struct {
                name: "outer".to_string(),
                fields: vec![
                    ("f".to_string(), "AnonymousType1".to_string()),
                    ("g".to_string(), "AnonymousType__2".to_string()),
                ],
            },
        ]
    );
}

#[test]
fn pstring_becomes_a_wrapper() {
    let protocol = Protocol {
        types: vec![(
            "shortstr".to_string(),
            Type::LengthPrefixedString { count_type: Box::new(Type::Native) },
        )],
    };

    let unit = lower(&protocol).unwrap();
    let module = generate_rust(&unit);

    // The count type is metadata: it is neither defined nor imported.
    assert_eq!(module.imports, Vec::<String>::new());
    assert_eq!(
        module.items,
        vec![RustItem::StringWrapper { name: "shortstr".to_string() }]
    );
}

#[test]
fn bitfields_are_not_generatable_yet() {
    let protocol = Protocol {
        types: vec![(
            "flags".to_string(),
            Type::BitFields(BitFields {
                fields: vec![BitField { name: "x".into(), size: 3, signed: false }],
            }),
        )],
    };

    let unit = lower(&protocol).unwrap();

    assert!(!is_generatable(&unit));
}

#[test]
fn formatter_fallback_returns_input_unchanged() {
    let source = "pub struct A { pub b : i8 , }".to_string();

    let same = formatted_or_original(source.clone(), None);
    assert_eq!(same, source);

    let formatted = formatted_or_original(source, Some("pub struct A {\n    pub b: i8,\n}".to_string()));
    assert_eq!(formatted, "pub struct A {\n    pub b: i8,\n}");
}
