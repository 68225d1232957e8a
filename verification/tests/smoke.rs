//! End-to-end: a small document through parse, lower and generate.

use protodef::backend::{generate_rust, RustItem};
use protodef::json::JsonValue;
use protodef::lowering::analysis::lower;
use protodef::lowering::hir;
use protodef::syntax::parse::parse;

fn s(text: &str) -> JsonValue {
    JsonValue::String(text.to_string())
}

fn obj(entries: Vec<(&str, JsonValue)>) -> JsonValue {
    JsonValue::Object(entries.into_iter().map(|(k, v)| (k.to_string(), v)).collect())
}

#[test]
fn basic() {
    let doc = obj(vec![(
        "types",
        obj(vec![
            ("i8", s("native")),
            ("i16", s("native")),
            (
                "items",
                JsonValue::Array(vec![
                    s("container"),
                    JsonValue::Array(vec![
                        obj(vec![("name", s("itemCount")), ("type", s("i8"))]),
                        obj(vec![("name", s("itemDamage")), ("type", s("i16"))]),
                    ]),
                ]),
            ),
        ]),
    )]);

    let parsed = parse(&doc).unwrap();
    let analysed = lower(&parsed).unwrap();

    let items_id = analysed.named_types.iter().find(|(n, _)| n == "items").unwrap().1;
    let i8_id = analysed.named_types.iter().find(|(n, _)| n == "i8").unwrap().1;
    let i16_id = analysed.named_types.iter().find(|(n, _)| n == "i16").unwrap().1;
    let items_should_be = hir::Type::Struct(hir::Struct {
        fields: vec![
            hir::Field { name: "itemCount".into(), ty: i8_id },
            hir::Field { name: "itemDamage".into(), ty: i16_id },
        ],
    });
    let items = &analysed.types.iter().find(|(id, _)| *id == items_id).unwrap().1;
    assert_eq!(items, &items_should_be);

    let module = generate_rust(&analysed);
    assert_eq!(module.imports, vec!["i8".to_string(), "i16".to_string()]);
    assert_eq!(
        module.items,
        vec![RustItem::Struct {
            name: "items".to_string(),
            fields: vec![
                ("itemCount".to_string(), "i8".to_string()),
                ("itemDamage".to_string(), "i16".to_string()),
            ],
        }]
    );
    println!("{:?}", module);
}
