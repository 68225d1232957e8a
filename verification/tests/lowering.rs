//! Lowering tests: name resolution, id reuse, diagnostics.

use protodef::lowering::analysis::{lower, protocol_size, Analyser};
use protodef::lowering::diagnostics::Diagnostic;
use protodef::lowering::hir;
use protodef::syntax::ast::{Container, Field, Protocol, Type};

fn node_for(types: &[(hir::TypeId, hir::Type)], id: hir::TypeId) -> &hir::Type {
    &types.iter().find(|(node_id, _)| *node_id == id).unwrap().1
}

#[test]
fn analyse_simple_struct() {
    let mut analyser = Analyser::new();
    let int = analyser.add_type(hir::Type::Native);
    analyser.register_name("u32", int);

    let src = Container {
        fields: vec![
            Field { name: Some("first".into()), ty: Type::Named("u32".into()) },
            Field { name: Some("second".into()), ty: Type::Named("u32".into()) },
        ],
    };
    let should_be = hir::Type::Struct(hir::Struct {
        fields: vec![
            hir::Field { name: "first".into(), ty: int },
            hir::Field { name: "second".into(), ty: int },
        ],
    });

    let got = analyser.visit_container(&src);

    assert!(!got.is_error());
    assert_eq!(node_for(&analyser.types, got), &should_be);
}

#[test]
fn earlier_declaration_is_reused() {
    let protocol = Protocol {
        types: vec![
            ("i8".to_string(), Type::Native),
            (
                "pair".to_string(),
                Type::Container(Container {
                    fields: vec![
                        Field::new("a", Type::Named("i8".into())),
                        Field::new("b", Type::Named("i8".into())),
                    ],
                }),
            ),
        ],
    };

    let unit = lower(&protocol).unwrap();

    // One node for `i8`, one struct node for `pair`: both references to
    // `i8` share the node registered for it, nothing is duplicated.
    assert_eq!(unit.types.len(), 2);

    let i8_id = unit.named_types.iter().find(|(n, _)| n == "i8").unwrap().1;
    let pair_id = unit.named_types.iter().find(|(n, _)| n == "pair").unwrap().1;
    let pair = node_for(&unit.types, pair_id);
    assert_eq!(
        pair,
        &hir::Type::Struct(hir::Struct {
            fields: vec![
                hir::Field { name: "a".into(), ty: i8_id },
                hir::Field { name: "b".into(), ty: i8_id },
            ],
        })
    );
}

#[test]
fn missing_names_are_collected_not_fatal() {
    let protocol = Protocol {
        types: vec![
            (
                "pair".to_string(),
                Type::Container(Container {
                    fields: vec![
                        Field::new("a", Type::Named("ghosttype".into())),
                        Field::new("b", Type::Named("other".into())),
                    ],
                }),
            ),
            ("late".to_string(), Type::Native),
        ],
    };

    let diagnostics = lower(&protocol).unwrap_err();

    // One diagnostic per unresolved occurrence, in document order; the
    // rest of the document was still processed.
    assert_eq!(
        diagnostics.all_diagnostics(),
        &[
            Diagnostic::MissingName { name: "ghosttype".to_string() },
            Diagnostic::MissingName { name: "other".to_string() },
        ]
    );
}

#[test]
fn forward_reference_is_missing() {
    let protocol = Protocol {
        types: vec![
            ("uses".to_string(), Type::Named("declared_later".into())),
            ("declared_later".to_string(), Type::Native),
        ],
    };

    let diagnostics = lower(&protocol).unwrap_err();

    assert_eq!(
        diagnostics.all_diagnostics(),
        &[Diagnostic::MissingName { name: "declared_later".to_string() }]
    );
}

#[test]
fn switch_is_reported_unsupported() {
    let protocol = Protocol {
        types: vec![(
            "s".to_string(),
            Type::Switch(protodef::syntax::ast::Switch {
                compare_to: "x".into(),
                variants: Vec::new(),
                default: None,
            }),
        )],
    };

    let diagnostics = lower(&protocol).unwrap_err();

    assert_eq!(
        diagnostics.all_diagnostics(),
        &[Diagnostic::Unsupported { construct: "switch".to_string() }]
    );
}

#[test]
fn anonymous_fields_are_reported_unsupported() {
    let protocol = Protocol {
        types: vec![(
            "c".to_string(),
            Type::Container(Container {
                fields: vec![Field { name: None, ty: Type::Native }],
            }),
        )],
    };

    let diagnostics = lower(&protocol).unwrap_err();

    assert_eq!(
        diagnostics.all_diagnostics(),
        &[Diagnostic::Unsupported { construct: "anonymous field".to_string() }]
    );
    assert_eq!(diagnostics.message(), "unsupported construct: anonymous field\n");
}

#[test]
fn diagnostics_come_in_traversal_order() {
    let protocol = Protocol {
        types: vec![
            ("a".to_string(), Type::Named("ghost_one".into())),
            (
                "s".to_string(),
                Type::Switch(protodef::syntax::ast::Switch {
                    compare_to: "a".into(),
                    variants: Vec::new(),
                    default: None,
                }),
            ),
            (
                "c".to_string(),
                Type::Container(Container {
                    fields: vec![
                        Field { name: None, ty: Type::Native },
                        Field::new("f", Type::Named("ghost_two".into())),
                    ],
                }),
            ),
        ],
    };

    let diagnostics = lower(&protocol).unwrap_err();

    assert_eq!(
        diagnostics.all_diagnostics(),
        &[
            Diagnostic::MissingName { name: "ghost_one".to_string() },
            Diagnostic::Unsupported { construct: "switch".to_string() },
            Diagnostic::Unsupported { construct: "anonymous field".to_string() },
            Diagnostic::MissingName { name: "ghost_two".to_string() },
        ]
    );
}

#[test]
fn diagnostics_render_one_line_per_issue() {
    let protocol = Protocol {
        types: vec![
            ("a".to_string(), Type::Named("x".into())),
            ("b".to_string(), Type::Named("y".into())),
        ],
    };

    let diagnostics = lower(&protocol).unwrap_err();

    assert_eq!(
        diagnostics.message(),
        "2 issues found:\n  missing name: x\n\n  missing name: y\n\n"
    );

    let protocol = Protocol { types: vec![("a".to_string(), Type::Named("x".into()))] };
    let diagnostics = lower(&protocol).unwrap_err();
    assert_eq!(diagnostics.message(), "missing name: x\n");
}

#[test]
fn protocol_size_counts_every_occurrence() {
    let protocol = Protocol {
        types: vec![
            ("i8".to_string(), Type::Native),
            (
                "wrapped".to_string(),
                Type::LengthPrefixedString { count_type: Box::new(Type::Native) },
            ),
        ],
    };

    assert_eq!(protocol_size(&protocol), Some(3));
}
