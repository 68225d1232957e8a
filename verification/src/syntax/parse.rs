//! The parser: classifies a JSON tree as a ProtoDef grammar value.
//!
//! The `spec_parse_*` functions are the grammar's defining equations: for
//! every JSON value they say exactly which grammar value, or which error
//! with which breadcrumb, parsing yields. Each executable function is proved
//! to return precisely what its equation says.

use crate::json::JsonValue;
use crate::syntax::ast::{
    lemma_view_fields, lemma_view_variants, prot_entries, view_bitfield, view_field,
    view_fields, view_protocol, view_switch, view_type, view_variants, BitField, BitFieldV,
    BitFields, Container, Field, FieldV, Mapper, Protocol, ProtocolV, Switch, SwitchV, Type,
    TypeV,
};
use crate::syntax::errors::{
    spec_error, spec_incorrect_type, spec_value_kind, spec_with_context, view_parse_error,
    ErrorKind, ErrorKindV, ParseError, ParseErrorV, ValueKind,
};
use crate::table::{assoc_index, assoc_insert, str_entries};
use crate::text::{dec_str, spec_parse_i64};
use vstd::prelude::*;

verus! {

/// An object's entry found by key lies structurally inside the object: the
/// fact the termination checker needs when a grammar rule recurses into a
/// looked-up entry.
pub proof fn lemma_object_entry_decreases(v: JsonValue, key: Seq<char>)
    requires
        v is Object,
        crate::table::assoc_has(str_entries(v->Object_0@), key),
    ensures
        0 <= assoc_index(str_entries(v->Object_0@), key) < v->Object_0@.len(),
        decreases_to!(
            v => str_entries(v->Object_0@)[assoc_index(str_entries(v->Object_0@), key)].1
        ),
{
    let es = str_entries(v->Object_0@);
    crate::table::lemma_assoc_index(es, key);
    let i = assoc_index(es, key);
    assert(es[i].1 == v->Object_0@[i].1);
    assert(decreases_to!(v => v->Object_0));
    assert(decreases_to!(v->Object_0 => v->Object_0@));
    assert(decreases_to!(v->Object_0@ => v->Object_0@[i]));
    assert(decreases_to!(v->Object_0@[i] => v->Object_0@[i].1));
}

/// `r` with one breadcrumb step prepended to its error, if it is one.
pub open spec fn with_ctx<T>(r: Result<T, ParseErrorV>, step: Seq<char>) -> Result<
    T,
    ParseErrorV,
> {
    match r {
        Ok(t) => Ok(t),
        Err(e) => Err(spec_with_context(e, step)),
    }
}

/// What parsing a whole document yields.
///
/// A document without a `types` key (in particular, one that is not an
/// object at all) is an empty protocol; otherwise every entry of the
/// `types` object becomes a protocol entry.
pub open spec fn spec_parse_document(v: JsonValue) -> Result<ProtocolV, ParseErrorV> {
    match v {
        JsonValue::Object(entries) => {
            let es = str_entries(entries@);
            let ti = assoc_index(es, "types"@);
            if ti < 0 {
                Ok(Seq::empty())
            } else {
                match es[ti].1 {
                    JsonValue::Object(tes) => with_ctx(
                        spec_parse_types(tes@, Seq::empty()),
                        "types"@,
                    ),
                    other => Err(
                        spec_with_context(
                            spec_incorrect_type(ValueKind::Object, spec_value_kind(other)),
                            "types"@,
                        ),
                    ),
                }
            }
        },
        _ => Ok(Seq::empty()),
    }
}

/// What parsing the entries of a `types` object yields: each value parsed
/// as a type and inserted under its key, in order, a later duplicate key
/// replacing the value of an earlier one in place.
pub open spec fn spec_parse_types(
    entries: Seq<(String, JsonValue)>,
    acc: ProtocolV,
) -> Result<ProtocolV, ParseErrorV>
    decreases entries.len(),
{
    if entries.len() == 0 {
        Ok(acc)
    } else {
        match with_ctx(spec_parse_type(entries[0].1), entries[0].0@) {
            Err(e) => Err(e),
            Ok(t) => spec_parse_types(
                entries.subrange(1, entries.len() as int),
                assoc_insert(acc, entries[0].0@, t),
            ),
        }
    }
}

/// What parsing one type declaration yields.
///
/// The literal string `"native"` is a native type and any other string is a
/// named reference; everything else must be a two-element `[function_name,
/// argument]` array dispatched on its function name. An array of the wrong
/// arity is rejected with a breadcrumb naming the offending function, when
/// its first element gives one.
pub open spec fn spec_parse_type(v: JsonValue) -> Result<TypeV, ParseErrorV>
    decreases v, 2int,
{
    match v {
        JsonValue::String(s) => {
            if s@ == "native"@ {
                Ok(TypeV::Native)
            } else {
                Ok(TypeV::Named(s@))
            }
        },
        JsonValue::Array(items) => {
            if items@.len() != 2 {
                let arity = spec_error(
                    ErrorKindV::IncorrectArrayLength { expected: 2, found: items@.len() as usize },
                );
                if items@.len() > 0 && items@[0] is String {
                    Err(spec_with_context(arity, items@[0]->String_0@))
                } else {
                    Err(arity)
                }
            } else {
                match items@[0] {
                    JsonValue::String(fname) => {
                        let arg = items@[1];
                        if fname@ == "container"@ {
                            match with_ctx(spec_parse_container(arg), "container"@) {
                                Err(e) => Err(e),
                                Ok(fs) => Ok(TypeV::Container(fs)),
                            }
                        } else if fname@ == "switch"@ {
                            match with_ctx(spec_parse_switch(arg), "switch"@) {
                                Err(e) => Err(e),
                                Ok(s) => Ok(TypeV::Switch(s)),
                            }
                        } else if fname@ == "bitfield"@ {
                            match with_ctx(spec_parse_bitfields(arg), "bitfield"@) {
                                Err(e) => Err(e),
                                Ok(fs) => Ok(TypeV::BitFields(fs)),
                            }
                        } else if fname@ == "pstring"@ {
                            with_ctx(spec_parse_pstring(arg), "pstring"@)
                        } else if fname@ == "mapper"@ {
                            Ok(TypeV::Mapper)
                        } else {
                            Err(spec_error(ErrorKindV::UnknownFunction { name: fname@ }))
                        }
                    },
                    other => Err(
                        spec_with_context(
                            spec_incorrect_type(ValueKind::String, spec_value_kind(other)),
                            "function_name"@,
                        ),
                    ),
                }
            }
        },
        _ => Err(spec_incorrect_type(ValueKind::Array, spec_value_kind(v))),
    }
}

/// What parsing a container argument (its field array) yields.
pub open spec fn spec_parse_container(v: JsonValue) -> Result<Seq<FieldV>, ParseErrorV>
    decreases v, 1int,
{
    match v {
        JsonValue::Array(items) => spec_parse_fields(items@, 0, Seq::empty()),
        _ => Err(
            spec_with_context(
                spec_incorrect_type(ValueKind::Array, spec_value_kind(v)),
                "fields"@,
            ),
        ),
    }
}

/// What parsing the field array of a container yields, element by element,
/// the breadcrumb of a failing element naming its index.
pub open spec fn spec_parse_fields(
    items: Seq<JsonValue>,
    base: nat,
    acc: Seq<FieldV>,
) -> Result<Seq<FieldV>, ParseErrorV>
    decreases items, 1int,
{
    if items.len() == 0 {
        Ok(acc)
    } else {
        match with_ctx(with_ctx(spec_parse_field(items[0]), "field"@), dec_str(base)) {
            Err(e) => Err(e),
            Ok(f) => spec_parse_fields(
                items.subrange(1, items.len() as int),
                base + 1,
                acc.push(f),
            ),
        }
    }
}

/// What parsing one container field yields: an object with a `type`, and
/// either a `name` or an `anon` marker that makes the field anonymous.
pub open spec fn spec_parse_field(v: JsonValue) -> Result<FieldV, ParseErrorV>
    decreases v, 1int,
{
    match v {
        JsonValue::Object(entries) => {
            let es = str_entries(entries@);
            let ti = assoc_index(es, "type"@);
            if ti < 0 {
                Err(spec_error(ErrorKindV::MissingField { name: "type"@ }))
            } else {
                proof {
                    lemma_object_entry_decreases(v, "type"@);
                }
                match with_ctx(spec_parse_type(es[ti].1), "type"@) {
                    Err(e) => Err(e),
                    Ok(t) => {
                        if assoc_index(es, "anon"@) >= 0 {
                            Ok(FieldV { name: None, ty: t })
                        } else {
                            let ni = assoc_index(es, "name"@);
                            if ni < 0 {
                                Err(spec_error(ErrorKindV::MissingField { name: "name"@ }))
                            } else {
                                match es[ni].1 {
                                    JsonValue::String(n) => Ok(FieldV { name: Some(n@), ty: t }),
                                    other => Err(
                                        spec_with_context(
                                            spec_incorrect_type(
                                                ValueKind::String,
                                                spec_value_kind(other),
                                            ),
                                            "name"@,
                                        ),
                                    ),
                                }
                            }
                        }
                    },
                }
            }
        },
        _ => Err(spec_incorrect_type(ValueKind::Object, spec_value_kind(v))),
    }
}

/// What parsing a switch argument yields: its `compareTo` field name, its
/// variant table keyed by base-10 integers, and an optional `default` type.
pub open spec fn spec_parse_switch(v: JsonValue) -> Result<SwitchV, ParseErrorV>
    decreases v, 1int,
{
    match v {
        JsonValue::Object(entries) => {
            let es = str_entries(entries@);
            let ci = assoc_index(es, "compareTo"@);
            if ci < 0 {
                Err(spec_error(ErrorKindV::MissingField { name: "compareTo"@ }))
            } else {
                match es[ci].1 {
                    JsonValue::String(compare_to) => {
                        let fi = assoc_index(es, "fields"@);
                        if fi < 0 {
                            Err(spec_error(ErrorKindV::MissingField { name: "fields"@ }))
                        } else {
                            match es[fi].1 {
                                JsonValue::Object(fentries) => {
                                    proof {
                                        lemma_object_entry_decreases(v, "fields"@);
                                        assert(decreases_to!(es[fi].1 => es[fi].1->Object_0));
                                        assert(decreases_to!(es[fi].1->Object_0 => fentries@));
                                    }
                                    match spec_parse_variants(fentries@, Seq::empty()) {
                                        Err(e) => Err(e),
                                        Ok(variants) => {
                                            let di = assoc_index(es, "default"@);
                                            if di < 0 {
                                                Ok(
                                                    SwitchV {
                                                        compare_to: compare_to@,
                                                        variants,
                                                        default: None,
                                                    },
                                                )
                                            } else {
                                                proof {
                                                    lemma_object_entry_decreases(v, "default"@);
                                                }
                                                match spec_parse_type(es[di].1) {
                                                    Err(e) => Err(e),
                                                    Ok(d) => Ok(
                                                        SwitchV {
                                                            compare_to: compare_to@,
                                                            variants,
                                                            default: Some(Box::new(d)),
                                                        },
                                                    ),
                                                }
                                            }
                                        },
                                    }
                                },
                                other => Err(
                                    spec_with_context(
                                        spec_incorrect_type(
                                            ValueKind::Object,
                                            spec_value_kind(other),
                                        ),
                                        "fields"@,
                                    ),
                                ),
                            }
                        }
                    },
                    other => Err(
                        spec_with_context(
                            spec_incorrect_type(ValueKind::String, spec_value_kind(other)),
                            "compareTo"@,
                        ),
                    ),
                }
            }
        },
        _ => Err(spec_incorrect_type(ValueKind::Object, spec_value_kind(v))),
    }
}

/// What parsing the variant table of a switch yields: each value parsed as
/// a type and inserted under its key parsed as a base-10 integer, in order.
pub open spec fn spec_parse_variants(
    entries: Seq<(String, JsonValue)>,
    acc: Seq<(i64, TypeV)>,
) -> Result<Seq<(i64, TypeV)>, ParseErrorV>
    decreases entries, 1int,
{
    if entries.len() == 0 {
        Ok(acc)
    } else {
        match with_ctx(with_ctx(spec_parse_type(entries[0].1), "fields"@), entries[0].0@) {
            Err(e) => Err(e),
            Ok(t) => match spec_parse_i64(entries[0].0@) {
                None => Err(spec_error(ErrorKindV::ParseInt)),
                Some(k) => spec_parse_variants(
                    entries.subrange(1, entries.len() as int),
                    assoc_insert(acc, k, t),
                ),
            },
        }
    }
}

/// What parsing a length-prefixed-string argument yields: an object whose
/// `countType` is itself a type.
pub open spec fn spec_parse_pstring(v: JsonValue) -> Result<TypeV, ParseErrorV>
    decreases v, 1int,
{
    match v {
        JsonValue::Object(entries) => {
            let es = str_entries(entries@);
            let ci = assoc_index(es, "countType"@);
            if ci < 0 {
                Err(
                    spec_with_context(
                        spec_error(ErrorKindV::MissingField { name: "countType"@ }),
                        "countType"@,
                    ),
                )
            } else {
                proof {
                    lemma_object_entry_decreases(v, "countType"@);
                }
                match with_ctx(spec_parse_type(es[ci].1), "countType"@) {
                    Err(e) => Err(e),
                    Ok(t) => Ok(TypeV::LengthPrefixedString(Box::new(t))),
                }
            }
        },
        _ => Err(spec_incorrect_type(ValueKind::Object, spec_value_kind(v))),
    }
}

/// What parsing a bitfield argument (its field array) yields.
pub open spec fn spec_parse_bitfields(v: JsonValue) -> Result<Seq<BitFieldV>, ParseErrorV> {
    match v {
        JsonValue::Array(items) => spec_parse_bitfield_seq(items@, 0, Seq::empty()),
        _ => Err(
            spec_with_context(
                spec_incorrect_type(ValueKind::Array, spec_value_kind(v)),
                "fields"@,
            ),
        ),
    }
}

/// What parsing the field array of a bitfield yields, element by element.
pub open spec fn spec_parse_bitfield_seq(
    items: Seq<JsonValue>,
    base: nat,
    acc: Seq<BitFieldV>,
) -> Result<Seq<BitFieldV>, ParseErrorV>
    decreases items.len(),
{
    if items.len() == 0 {
        Ok(acc)
    } else {
        match with_ctx(with_ctx(spec_parse_bitfield(items[0]), dec_str(base)), "field"@) {
            Err(e) => Err(e),
            Ok(f) => spec_parse_bitfield_seq(
                items.subrange(1, items.len() as int),
                base + 1,
                acc.push(f),
            ),
        }
    }
}

/// Whether an `i64` is a usable bit count: positive, and within `usize`.
pub open spec fn valid_bit_size(n: i64) -> bool {
    0 < n && n as int <= usize::MAX as int
}

/// What parsing one bit-level field yields: an object with a string `name`,
/// a positive integer `size` and a boolean `signed`.
pub open spec fn spec_parse_bitfield(v: JsonValue) -> Result<BitFieldV, ParseErrorV> {
    match v {
        JsonValue::Object(entries) => {
            let es = str_entries(entries@);
            let ni = assoc_index(es, "name"@);
            if ni < 0 {
                Err(spec_error(ErrorKindV::MissingField { name: "name"@ }))
            } else {
                match es[ni].1 {
                    JsonValue::String(name) => {
                        let si = assoc_index(es, "size"@);
                        if si < 0 {
                            Err(spec_error(ErrorKindV::MissingField { name: "size"@ }))
                        } else {
                            match es[si].1 {
                                JsonValue::Number(n) => {
                                    if n matches crate::json::JsonNumber::Int(sz)
                                        && valid_bit_size(n->Int_0) {
                                        let gi = assoc_index(es, "signed"@);
                                        if gi < 0 {
                                            Err(
                                                spec_error(
                                                    ErrorKindV::MissingField { name: "signed"@ },
                                                ),
                                            )
                                        } else {
                                            match es[gi].1 {
                                                JsonValue::Bool(signed) => Ok(
                                                    BitFieldV {
                                                        name: name@,
                                                        size: n->Int_0 as usize,
                                                        signed,
                                                    },
                                                ),
                                                other => Err(
                                                    spec_with_context(
                                                        spec_incorrect_type(
                                                            ValueKind::Bool,
                                                            spec_value_kind(other),
                                                        ),
                                                        "signed"@,
                                                    ),
                                                ),
                                            }
                                        }
                                    } else {
                                        Err(
                                            spec_error(
                                                ErrorKindV::IncorrectType {
                                                    expected: seq![ValueKind::Integer],
                                                    found: crate::syntax::errors::spec_kind_for_number(
                                                        n,
                                                    ),
                                                },
                                            ),
                                        )
                                    }
                                },
                                other => Err(
                                    spec_with_context(
                                        spec_error(
                                            ErrorKindV::IncorrectType {
                                                expected: seq![ValueKind::Integer, ValueKind::Float],
                                                found: spec_value_kind(other),
                                            },
                                        ),
                                        "size"@,
                                    ),
                                ),
                            }
                        }
                    },
                    other => Err(
                        spec_with_context(
                            spec_incorrect_type(ValueKind::String, spec_value_kind(other)),
                            "name"@,
                        ),
                    ),
                }
            }
        },
        _ => Err(spec_incorrect_type(ValueKind::Object, spec_value_kind(v))),
    }
}

/// Checks an array's arity before it is taken apart.
pub fn expect_length(items: &Vec<JsonValue>, expected: usize) -> (r: Result<(), ParseError>)
    ensures
        match r {
            Ok(_) => items@.len() == expected,
            Err(e) => items@.len() != expected && view_parse_error(e) == spec_error(
                ErrorKindV::IncorrectArrayLength { expected, found: items@.len() as usize },
            ),
        },
{
    if items.len() == expected {
        Ok(())
    } else {
        Err(
            ParseError::new(
                ErrorKind::IncorrectArrayLength { expected, found: items.len() },
            ),
        )
    }
}

/// Looks a key up in an object's entries, or reports a `MissingField`.
fn lookup<'a>(entries: &'a Vec<(String, JsonValue)>, key: &str) -> (r: Result<
    &'a JsonValue,
    ParseError,
>)
    ensures
        ({
            let es = str_entries(entries@);
            match r {
                Ok(val) => crate::table::assoc_has(es, key@) && *val == es[assoc_index(
                    es,
                    key@,
                )].1,
                Err(e) => !crate::table::assoc_has(es, key@) && view_parse_error(e)
                    == spec_error(ErrorKindV::MissingField { name: key@ }),
            }
        }),
{
    match JsonValue::get(entries, key) {
        Some(v) => Ok(v),
        None => Err(ParseError::missing_field(key)),
    }
}

/// Parses one bit-level field, exactly as [`spec_parse_bitfield`] describes.
pub fn parse_bitfield(v: &JsonValue) -> (r: Result<BitField, ParseError>)
    ensures
        match r {
            Ok(f) => spec_parse_bitfield(*v) == Ok::<BitFieldV, ParseErrorV>(view_bitfield(f)),
            Err(e) => spec_parse_bitfield(*v) == Err::<BitFieldV, ParseErrorV>(
                view_parse_error(e),
            ),
        },
{
    let entries = match v.expect_object() {
        Ok(es) => es,
        Err(e) => return Err(e),
    };
    let name_v = match lookup(entries, "name") {
        Ok(x) => x,
        Err(e) => return Err(e),
    };
    let name = match name_v.expect_string() {
        Ok(s) => s,
        Err(e) => return Err(e.with_context("name")),
    };
    let num_v = match lookup(entries, "size") {
        Ok(x) => x,
        Err(e) => return Err(e),
    };
    let num = match num_v.expect_number() {
        Ok(n) => n,
        Err(e) => return Err(e.with_context("size")),
    };
    let size: usize = match num {
        crate::json::JsonNumber::Int(s) => {
            if 1 <= s && (s as u64) <= (usize::MAX as u64) {
                s as usize
            } else {
                return Err(
                    ParseError::incorrect_type(ValueKind::Integer, ValueKind::for_number(num)),
                );
            }
        },
        _ => {
            return Err(
                ParseError::incorrect_type(ValueKind::Integer, ValueKind::for_number(num)),
            );
        },
    };
    let signed_v = match lookup(entries, "signed") {
        Ok(x) => x,
        Err(e) => return Err(e),
    };
    let signed = match signed_v.expect_bool() {
        Ok(b) => b,
        Err(e) => return Err(e.with_context("signed")),
    };
    Ok(BitField { name: name.clone(), size, signed })
}

/// Parses the elements of a bitfield's field array from `idx` on, appending
/// to `acc`.
fn parse_bitfield_seq(items: &Vec<JsonValue>, idx: usize, acc: Vec<BitField>) -> (r: Result<
    Vec<BitField>,
    ParseError,
>)
    requires
        idx <= items@.len(),
    ensures
        ({
            let expected = spec_parse_bitfield_seq(
                items@.subrange(idx as int, items@.len() as int),
                idx as nat,
                crate::syntax::ast::view_bitfields(acc@),
            );
            match r {
                Ok(fs) => expected == Ok::<Seq<BitFieldV>, ParseErrorV>(
                    crate::syntax::ast::view_bitfields(fs@),
                ),
                Err(e) => expected == Err::<Seq<BitFieldV>, ParseErrorV>(view_parse_error(e)),
            }
        }),
    decreases items@.len() - idx,
{
    let ghost sub = items@.subrange(idx as int, items@.len() as int);
    if idx == items.len() {
        proof {
            assert(sub =~= Seq::<JsonValue>::empty());
        }
        return Ok(acc);
    }
    proof {
        assert(sub[0] == items@[idx as int]);
    }
    let f = match parse_bitfield(&items[idx]) {
        Ok(f) => f,
        Err(e) => return Err(e.with_context_index(idx).with_context("field")),
    };
    let mut acc2 = acc;
    acc2.push(f);
    proof {
        assert(crate::syntax::ast::view_bitfields(acc2@) =~= crate::syntax::ast::view_bitfields(
            acc@,
        ).push(view_bitfield(f)));
        assert(sub.subrange(1, sub.len() as int) =~= items@.subrange(
            idx + 1 as int,
            items@.len() as int,
        ));
    }
    parse_bitfield_seq(items, idx + 1, acc2)
}

/// Parses a bitfield argument, exactly as [`spec_parse_bitfields`]
/// describes.
pub fn parse_bitfields(v: &JsonValue) -> (r: Result<BitFields, ParseError>)
    ensures
        match r {
            Ok(b) => spec_parse_bitfields(*v) == Ok::<Seq<BitFieldV>, ParseErrorV>(
                crate::syntax::ast::view_bitfields(b.fields@),
            ),
            Err(e) => spec_parse_bitfields(*v) == Err::<Seq<BitFieldV>, ParseErrorV>(
                view_parse_error(e),
            ),
        },
{
    let items = match v.expect_array() {
        Ok(a) => a,
        Err(e) => return Err(e.with_context("fields")),
    };
    proof {
        assert(items@.subrange(0, items@.len() as int) =~= items@);
        assert(crate::syntax::ast::view_bitfields(Seq::<BitField>::empty()) =~= Seq::<
            BitFieldV,
        >::empty());
    }
    let fields = match parse_bitfield_seq(items, 0, Vec::new()) {
        Ok(fs) => fs,
        Err(e) => return Err(e),
    };
    Ok(BitFields { fields })
}

/// Insert-or-replace into a switch's variant table, exactly as
/// [`assoc_insert`] describes it on the table's mirror.
fn variants_insert(variants: &mut Vec<(i64, Type)>, key: i64, value: Type)
    ensures
        view_variants(final(variants)@) == assoc_insert(
            view_variants(old(variants)@),
            key,
            view_type(value),
        ),
{
    let ghost entries = view_variants(variants@);
    proof {
        lemma_view_variants(variants@);
        crate::table::lemma_assoc_index(entries, key);
    }
    let n = variants.len();
    let mut i: usize = 0;
    while i < n
        invariant
            n == variants@.len(),
            variants@ == old(variants)@,
            entries == view_variants(variants@),
            entries.len() == n,
            forall|j: int|
                0 <= j < n ==> #[trigger] entries[j] == (
                    variants@[j].0,
                    view_type(variants@[j].1),
                ),
            i <= n,
            forall|j: int| 0 <= j < i ==> variants@[j].0 != key,
        decreases n - i,
    {
        if variants[i].0 == key {
            proof {
                crate::table::lemma_assoc_index_first(entries, key, i as int);
            }
            let pair = (key, value);
            variants.set(i, pair);
            proof {
                lemma_view_variants(variants@);
                assert(view_variants(variants@) =~= entries.update(
                    i as int,
                    (key, view_type(pair.1)),
                ));
            }
            return;
        }
        i += 1;
    }
    let pair = (key, value);
    variants.push(pair);
    proof {
        lemma_view_variants(variants@);
        assert(view_variants(variants@) =~= entries.push((key, view_type(pair.1))));
    }
}

/// Parses one type declaration, exactly as [`spec_parse_type`] describes.
pub fn parse_type(v: &JsonValue) -> (r: Result<Type, ParseError>)
    ensures
        match r {
            Ok(t) => spec_parse_type(*v) == Ok::<TypeV, ParseErrorV>(view_type(t)),
            Err(e) => spec_parse_type(*v) == Err::<TypeV, ParseErrorV>(view_parse_error(e)),
        },
    decreases *v, 2int,
{
    match v {
        JsonValue::String(s) => {
            if crate::text::str_eq(s.as_str(), "native") {
                Ok(Type::Native)
            } else {
                Ok(Type::Named(s.clone()))
            }
        },
        _ => {
            let items = match v.expect_array() {
                Ok(a) => a,
                Err(e) => return Err(e),
            };
            match expect_length(items, 2) {
                Ok(_) => {},
                Err(e) => {
                    if items.len() > 0 {
                        if let JsonValue::String(fname) = &items[0] {
                            return Err(e.with_context(fname.as_str()));
                        }
                    }
                    return Err(e);
                },
            }
            let fname = match items[0].expect_string() {
                Ok(s) => s,
                Err(e) => return Err(e.with_context("function_name")),
            };
            let arg = &items[1];
            proof {
                assert(decreases_to!(*v => v->Array_0));
                assert(decreases_to!(v->Array_0 => v->Array_0@));
                assert(decreases_to!(v->Array_0@ => v->Array_0@[1]));
                assert(*arg == v->Array_0@[1]);
            }
            if crate::text::str_eq(fname.as_str(), "container") {
                match parse_container(arg) {
                    Ok(c) => Ok(Type::Container(c)),
                    Err(e) => Err(e.with_context("container")),
                }
            } else if crate::text::str_eq(fname.as_str(), "switch") {
                match parse_switch(arg) {
                    Ok(s) => Ok(Type::Switch(s)),
                    Err(e) => Err(e.with_context("switch")),
                }
            } else if crate::text::str_eq(fname.as_str(), "bitfield") {
                match parse_bitfields(arg) {
                    Ok(b) => Ok(Type::BitFields(b)),
                    Err(e) => Err(e.with_context("bitfield")),
                }
            } else if crate::text::str_eq(fname.as_str(), "pstring") {
                match parse_length_prefixed_string(arg) {
                    Ok(t) => Ok(t),
                    Err(e) => Err(e.with_context("pstring")),
                }
            } else if crate::text::str_eq(fname.as_str(), "mapper") {
                match parse_mapper(arg) {
                    Ok(_m) => Ok(Type::Mapper(Mapper)),
                    Err(e) => Err(e.with_context("mapper")),
                }
            } else {
                Err(ParseError::unknown_function(fname.as_str()))
            }
        },
    }
}

/// Parses a container argument, exactly as [`spec_parse_container`]
/// describes.
pub fn parse_container(v: &JsonValue) -> (r: Result<Container, ParseError>)
    ensures
        match r {
            Ok(c) => spec_parse_container(*v) == Ok::<Seq<FieldV>, ParseErrorV>(
                view_fields(c.fields@),
            ),
            Err(e) => spec_parse_container(*v) == Err::<Seq<FieldV>, ParseErrorV>(
                view_parse_error(e),
            ),
        },
    decreases *v, 1int,
{
    let items = match v.expect_array() {
        Ok(a) => a,
        Err(e) => return Err(e.with_context("fields")),
    };
    proof {
        assert(decreases_to!(*v => v->Array_0));
        assert(decreases_to!(v->Array_0 => v->Array_0@));
        assert(items@.subrange(0, items@.len() as int) =~= items@);
        assert(view_fields(Seq::<Field>::empty()) =~= Seq::<FieldV>::empty());
    }
    let fields = match parse_fields(items, 0, Vec::new()) {
        Ok(fs) => fs,
        Err(e) => return Err(e),
    };
    Ok(Container { fields })
}

/// Parses the elements of a container's field array from `idx` on,
/// appending to `acc`.
fn parse_fields(items: &Vec<JsonValue>, idx: usize, acc: Vec<Field>) -> (r: Result<
    Vec<Field>,
    ParseError,
>)
    requires
        idx <= items@.len(),
    ensures
        ({
            let expected = spec_parse_fields(
                items@.subrange(idx as int, items@.len() as int),
                idx as nat,
                view_fields(acc@),
            );
            match r {
                Ok(fs) => expected == Ok::<Seq<FieldV>, ParseErrorV>(view_fields(fs@)),
                Err(e) => expected == Err::<Seq<FieldV>, ParseErrorV>(view_parse_error(e)),
            }
        }),
    decreases items@.subrange(idx as int, items@.len() as int), 1int,
{
    let ghost sub = items@.subrange(idx as int, items@.len() as int);
    if idx == items.len() {
        proof {
            assert(sub =~= Seq::<JsonValue>::empty());
        }
        return Ok(acc);
    }
    proof {
        assert(sub[0] == items@[idx as int]);
        assert(decreases_to!(sub => sub[0]));
    }
    let f = match parse_field(&items[idx]) {
        Ok(f) => f,
        Err(e) => return Err(e.with_context("field").with_context_index(idx)),
    };
    let mut acc2 = acc;
    acc2.push(f);
    proof {
        lemma_view_fields(acc2@);
        lemma_view_fields(acc@);
        assert(view_fields(acc2@) =~= view_fields(acc@).push(view_field(f)));
        assert(sub.subrange(1, sub.len() as int) =~= items@.subrange(
            idx + 1 as int,
            items@.len() as int,
        ));
    }
    parse_fields(items, idx + 1, acc2)
}

/// Parses one container field, exactly as [`spec_parse_field`] describes.
pub fn parse_field(v: &JsonValue) -> (r: Result<Field, ParseError>)
    ensures
        match r {
            Ok(f) => spec_parse_field(*v) == Ok::<FieldV, ParseErrorV>(view_field(f)),
            Err(e) => spec_parse_field(*v) == Err::<FieldV, ParseErrorV>(view_parse_error(e)),
        },
    decreases *v, 1int,
{
    let entries = match v.expect_object() {
        Ok(es) => es,
        Err(e) => return Err(e),
    };
    let ty_v = match lookup(entries, "type") {
        Ok(t) => t,
        Err(e) => return Err(e),
    };
    proof {
        lemma_object_entry_decreases(*v, "type"@);
    }
    let ty = match parse_type(ty_v) {
        Ok(t) => t,
        Err(e) => return Err(e.with_context("type")),
    };
    let name = if JsonValue::get(entries, "anon").is_some() {
        None
    } else {
        let name_v = match lookup(entries, "name") {
            Ok(x) => x,
            Err(e) => return Err(e),
        };
        let s = match name_v.expect_string() {
            Ok(s) => s,
            Err(e) => return Err(e.with_context("name")),
        };
        Some(s.clone())
    };
    Ok(Field { name, ty })
}

/// Parses a switch argument, exactly as [`spec_parse_switch`] describes.
pub fn parse_switch(v: &JsonValue) -> (r: Result<Switch, ParseError>)
    ensures
        match r {
            Ok(s) => spec_parse_switch(*v) == Ok::<SwitchV, ParseErrorV>(view_switch(s)),
            Err(e) => spec_parse_switch(*v) == Err::<SwitchV, ParseErrorV>(view_parse_error(e)),
        },
    decreases *v, 1int,
{
    let entries = match v.expect_object() {
        Ok(es) => es,
        Err(e) => return Err(e),
    };
    let cmp_v = match lookup(entries, "compareTo") {
        Ok(x) => x,
        Err(e) => return Err(e),
    };
    let compare_to = match cmp_v.expect_string() {
        Ok(s) => s.clone(),
        Err(e) => return Err(e.with_context("compareTo")),
    };
    let fields_v = match lookup(entries, "fields") {
        Ok(x) => x,
        Err(e) => return Err(e),
    };
    let fentries = match fields_v.expect_object() {
        Ok(fe) => fe,
        Err(e) => return Err(e.with_context("fields")),
    };
    proof {
        lemma_object_entry_decreases(*v, "fields"@);
        assert(decreases_to!(*fields_v => fields_v->Object_0));
        assert(decreases_to!(fields_v->Object_0 => fields_v->Object_0@));
        assert(fentries@ == fields_v->Object_0@);
        assert(fentries@.subrange(0, fentries@.len() as int) =~= fentries@);
        assert(view_variants(Seq::<(i64, Type)>::empty()) =~= Seq::<(i64, TypeV)>::empty());
    }
    let variants = match parse_variants(fentries, 0, Vec::new()) {
        Ok(vs) => vs,
        Err(e) => return Err(e),
    };
    let default = match JsonValue::get(entries, "default") {
        None => None,
        Some(dv) => {
            proof {
                lemma_object_entry_decreases(*v, "default"@);
            }
            match parse_type(dv) {
                Ok(t) => Some(Box::new(t)),
                Err(e) => return Err(e),
            }
        },
    };
    Ok(Switch { compare_to, variants, default })
}

/// Parses the entries of a switch's `fields` object from `idx` on, folding
/// them into `acc`.
fn parse_variants(entries: &Vec<(String, JsonValue)>, idx: usize, acc: Vec<(i64, Type)>) -> (r:
    Result<Vec<(i64, Type)>, ParseError>)
    requires
        idx <= entries@.len(),
    ensures
        ({
            let expected = spec_parse_variants(
                entries@.subrange(idx as int, entries@.len() as int),
                view_variants(acc@),
            );
            match r {
                Ok(vs) => expected == Ok::<Seq<(i64, TypeV)>, ParseErrorV>(view_variants(vs@)),
                Err(e) => expected == Err::<Seq<(i64, TypeV)>, ParseErrorV>(view_parse_error(e)),
            }
        }),
    decreases entries@.subrange(idx as int, entries@.len() as int), 1int,
{
    let ghost sub = entries@.subrange(idx as int, entries@.len() as int);
    if idx == entries.len() {
        proof {
            assert(sub =~= Seq::<(String, JsonValue)>::empty());
        }
        return Ok(acc);
    }
    proof {
        assert(sub[0] == entries@[idx as int]);
        assert(decreases_to!(sub => sub[0]));
        assert(decreases_to!(sub[0] => sub[0].1));
    }
    let ty = match parse_type(&entries[idx].1) {
        Ok(t) => t,
        Err(e) => return Err(e.with_context("fields").with_context(entries[idx].0.as_str())),
    };
    let k = match crate::text::parse_i64(entries[idx].0.as_str()) {
        Some(k) => k,
        None => return Err(ParseError::new(ErrorKind::ParseInt)),
    };
    let mut acc2 = acc;
    variants_insert(&mut acc2, k, ty);
    proof {
        assert(sub.subrange(1, sub.len() as int) =~= entries@.subrange(
            idx + 1 as int,
            entries@.len() as int,
        ));
    }
    parse_variants(entries, idx + 1, acc2)
}

/// Parses a length-prefixed-string argument, exactly as
/// [`spec_parse_pstring`] describes.
pub fn parse_length_prefixed_string(v: &JsonValue) -> (r: Result<Type, ParseError>)
    ensures
        match r {
            Ok(t) => spec_parse_pstring(*v) == Ok::<TypeV, ParseErrorV>(view_type(t)),
            Err(e) => spec_parse_pstring(*v) == Err::<TypeV, ParseErrorV>(view_parse_error(e)),
        },
    decreases *v, 1int,
{
    let entries = match v.expect_object() {
        Ok(es) => es,
        Err(e) => return Err(e),
    };
    let cv = match lookup(entries, "countType") {
        Ok(x) => x,
        Err(e) => return Err(e.with_context("countType")),
    };
    proof {
        lemma_object_entry_decreases(*v, "countType"@);
    }
    let t = match parse_type(cv) {
        Ok(t) => t,
        Err(e) => return Err(e.with_context("countType")),
    };
    Ok(Type::LengthPrefixedString { count_type: Box::new(t) })
}

/// Insert-or-replace into a protocol's type table, exactly as
/// [`assoc_insert`] describes it on the table's mirror.
fn protocol_insert(types: &mut Vec<(String, Type)>, name: String, ty: Type)
    ensures
        prot_entries(final(types)@) == assoc_insert(
            prot_entries(old(types)@),
            name@,
            view_type(ty),
        ),
{
    let ghost entries = prot_entries(types@);
    proof {
        crate::table::lemma_assoc_index(entries, name@);
    }
    let n = types.len();
    let mut i: usize = 0;
    while i < n
        invariant
            n == types@.len(),
            types@ == old(types)@,
            entries == prot_entries(types@),
            i <= n,
            forall|j: int| 0 <= j < i ==> types@[j].0@ != name@,
        decreases n - i,
    {
        if crate::text::str_eq(types[i].0.as_str(), name.as_str()) {
            proof {
                crate::table::lemma_assoc_index_first(entries, name@, i as int);
            }
            let pair = (name, ty);
            types.set(i, pair);
            proof {
                assert(prot_entries(types@) =~= entries.update(
                    i as int,
                    (pair.0@, view_type(pair.1)),
                ));
            }
            return;
        }
        i += 1;
    }
    let pair = (name, ty);
    types.push(pair);
    proof {
        assert(prot_entries(types@) =~= entries.push((pair.0@, view_type(pair.1))));
    }
}

/// Parses the entries of a `types` object from `idx` on, folding them into
/// `acc`.
fn parse_types_from(entries: &Vec<(String, JsonValue)>, idx: usize, acc: Vec<(String, Type)>)
    -> (r: Result<Vec<(String, Type)>, ParseError>)
    requires
        idx <= entries@.len(),
    ensures
        ({
            let expected = spec_parse_types(
                entries@.subrange(idx as int, entries@.len() as int),
                prot_entries(acc@),
            );
            match r {
                Ok(ts) => expected == Ok::<ProtocolV, ParseErrorV>(prot_entries(ts@)),
                Err(e) => expected == Err::<ProtocolV, ParseErrorV>(view_parse_error(e)),
            }
        }),
    decreases entries@.len() - idx,
{
    let ghost sub = entries@.subrange(idx as int, entries@.len() as int);
    if idx == entries.len() {
        proof {
            assert(sub =~= Seq::<(String, JsonValue)>::empty());
        }
        return Ok(acc);
    }
    proof {
        assert(sub[0] == entries@[idx as int]);
    }
    let ty = match parse_type(&entries[idx].1) {
        Ok(t) => t,
        Err(e) => return Err(e.with_context(entries[idx].0.as_str())),
    };
    let mut acc2 = acc;
    protocol_insert(&mut acc2, entries[idx].0.clone(), ty);
    proof {
        assert(sub.subrange(1, sub.len() as int) =~= entries@.subrange(
            idx + 1 as int,
            entries@.len() as int,
        ));
    }
    parse_types_from(entries, idx + 1, acc2)
}

/// Parses a whole document, exactly as [`spec_parse_document`] describes.
fn parse_document(document: &JsonValue) -> (r: Result<Protocol, ParseError>)
    ensures
        match r {
            Ok(p) => spec_parse_document(*document) == Ok::<ProtocolV, ParseErrorV>(
                view_protocol(p),
            ),
            Err(e) => spec_parse_document(*document) == Err::<ProtocolV, ParseErrorV>(
                view_parse_error(e),
            ),
        },
{
    proof {
        assert(prot_entries(Seq::<(String, Type)>::empty()) =~= Seq::<
            (Seq<char>, TypeV),
        >::empty());
    }
    match document {
        JsonValue::Object(entries) => {
            match JsonValue::get(entries, "types") {
                None => Ok(Protocol { types: Vec::new() }),
                Some(tv) => {
                    let tes = match tv.expect_object() {
                        Ok(t) => t,
                        Err(e) => return Err(e.with_context("types")),
                    };
                    proof {
                        assert(tes@.subrange(0, tes@.len() as int) =~= tes@);
                    }
                    let types = match parse_types_from(tes, 0, Vec::new()) {
                        Ok(ts) => ts,
                        Err(e) => return Err(e.with_context("types")),
                    };
                    Ok(Protocol { types })
                },
            }
        },
        _ => Ok(Protocol { types: Vec::new() }),
    }
}

/// Parses a JSON document into a [`Protocol`]: the result is exactly what
/// [`spec_parse_document`] says for this document, grammar value or error.
pub fn parse(document: &JsonValue) -> (r: Result<Protocol, ParseError>)
    ensures
        match r {
            Ok(p) => spec_parse_document(*document) == Ok::<ProtocolV, ParseErrorV>(
                view_protocol(p),
            ),
            Err(e) => spec_parse_document(*document) == Err::<ProtocolV, ParseErrorV>(
                view_parse_error(e),
            ),
        },
{
    parse_document(document)
}

/// A document without a `types` key — in particular one that is not an
/// object at all — parses to the empty protocol.
pub proof fn lemma_no_types_key_empty(doc: JsonValue)
    requires
        doc matches JsonValue::Object(entries) ==> !crate::table::assoc_has(
            str_entries(entries@),
            "types"@,
        ),
    ensures
        spec_parse_document(doc) == Ok::<ProtocolV, ParseErrorV>(Seq::empty()),
{
}

/// A string type declaration parses to `Native` exactly when it is the
/// literal `"native"`, and to a named reference carrying the string itself
/// otherwise.
pub proof fn lemma_string_type(s: String)
    ensures
        s@ == "native"@ ==> spec_parse_type(JsonValue::String(s)) == Ok::<TypeV, ParseErrorV>(
            TypeV::Native,
        ),
        s@ != "native"@ ==> spec_parse_type(JsonValue::String(s)) == Ok::<TypeV, ParseErrorV>(
            TypeV::Named(s@),
        ),
{
}

/// Parsing a field array preserves order: the fields after `acc` are
/// exactly the parses of the array's elements, element for element.
pub proof fn lemma_parse_fields_order(
    items: Seq<JsonValue>,
    base: nat,
    acc: Seq<FieldV>,
    fields: Seq<FieldV>,
)
    requires
        spec_parse_fields(items, base, acc) == Ok::<Seq<FieldV>, ParseErrorV>(fields),
    ensures
        fields.len() == acc.len() + items.len(),
        forall|k: int| 0 <= k < acc.len() ==> fields[k] == acc[k],
        forall|k: int|
            0 <= k < items.len() ==> spec_parse_field(#[trigger] items[k]) == Ok::<
                FieldV,
                ParseErrorV,
            >(fields[acc.len() + k]),
    decreases items.len(),
{
    if items.len() > 0 {
        let f = match spec_parse_field(items[0]) {
            Ok(f) => f,
            Err(_) => arbitrary(),
        };
        let rest = items.subrange(1, items.len() as int);
        lemma_parse_fields_order(rest, base + 1, acc.push(f), fields);
        assert forall|k: int| 0 <= k < items.len() implies spec_parse_field(
            #[trigger] items[k],
        ) == Ok::<FieldV, ParseErrorV>(fields[acc.len() + k]) by {
            if k == 0 {
                assert(fields[acc.len() as int] == acc.push(f)[acc.len() as int]);
            } else {
                assert(items[k] == rest[k - 1]);
            }
        }
    }
}

/// The field order of a well-formed container declaration equals the field
/// order of the input array: ordering is preserved, never sorted.
pub proof fn lemma_container_field_order(v: JsonValue, fields: Seq<FieldV>)
    requires
        v is Array,
        spec_parse_container(v) == Ok::<Seq<FieldV>, ParseErrorV>(fields),
    ensures
        fields.len() == v->Array_0@.len(),
        forall|k: int|
            0 <= k < v->Array_0@.len() ==> spec_parse_field(#[trigger] v->Array_0@[k]) == Ok::<
                FieldV,
                ParseErrorV,
            >(fields[k]),
{
    lemma_parse_fields_order(v->Array_0@, 0, Seq::empty(), fields);
}

/// Recognises a mapper argument.
///
/// The grammar's mapper table (integer code to symbolic name, both ways) is
/// not modelled yet, deliberately: the AST records only that a mapper was
/// declared, and lowering reports it as unsupported.
pub fn parse_mapper(_arg: &JsonValue) -> (r: Result<Mapper, ParseError>)
    ensures
        r matches Ok(m) && m == Mapper,
{
    Ok(Mapper)
}

} // verus!
