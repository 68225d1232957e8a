//! The resolver: walks the AST in document order, allocates one fresh id
//! per syntactic type occurrence (children before parents), resolves named
//! references against the names registered so far, and reports what it
//! cannot resolve instead of stopping.
//!
//! The `spec_*` functions define the pass as a state transformer; the
//! `Analyser` methods are proved to follow them exactly. Switches, mappers
//! and anonymous fields are deliberately not lowered yet: they produce an
//! `Unsupported` diagnostic and the error sentinel, so a document using
//! them never yields a compilation unit.

use crate::lowering::diagnostics::{view_diagnostics, Diagnostic, DiagnosticV, Diagnostics};
use crate::lowering::hir;
use crate::lowering::hir::{
    view_hfields, view_hir_type, view_nodes, view_unit, wf_unit, CompilationUnit, TypeId, UnitV,
};
use crate::syntax::ast;
use crate::table::{assoc_get, assoc_has, assoc_index, assoc_insert, str_entries};
use vstd::prelude::*;

verus! {

/// The resolver's state: the graph grown so far, the name table so far, the
/// last allocated id, and the issues found so far.
pub struct StateV {
    pub types: Seq<(TypeId, hir::TypeV)>,
    pub named: Seq<(Seq<char>, TypeId)>,
    pub last: TypeId,
    pub diags: Seq<DiagnosticV>,
}

/// The state a pass starts from: nothing allocated, the id counter seeded
/// at the error sentinel.
pub open spec fn init_state() -> StateV {
    StateV { types: Seq::empty(), named: Seq::empty(), last: TypeId(0), diags: Seq::empty() }
}

/// Allocating one fresh node: the next id, appended to the graph.
pub open spec fn spec_add_type(st: StateV, t: hir::TypeV) -> (StateV, TypeId) {
    let id = TypeId((st.last.0 + 1) as u32);
    (
        StateV {
            types: st.types.push((id, t)),
            named: st.named,
            last: id,
            diags: st.diags,
        },
        id,
    )
}

/// Reporting an unsupported construct: one diagnostic, the error sentinel,
/// no node.
pub open spec fn spec_unsupported(st: StateV, construct: Seq<char>) -> (StateV, TypeId) {
    (
        StateV {
            types: st.types,
            named: st.named,
            last: st.last,
            diags: st.diags.push(DiagnosticV::Unsupported { construct }),
        },
        TypeId(0),
    )
}

/// What visiting one grammar type does to the state, and which id the
/// occurrence resolves to.
pub open spec fn spec_visit_type(st: StateV, t: ast::Type) -> (StateV, TypeId)
    decreases t,
{
    match t {
        ast::Type::Native => spec_add_type(st, hir::TypeV::Native),
        ast::Type::Named(name) => {
            if assoc_has(st.named, name@) {
                (st, assoc_get(st.named, name@))
            } else {
                (
                    StateV {
                        types: st.types,
                        named: st.named,
                        last: st.last,
                        diags: st.diags.push(DiagnosticV::MissingName { name: name@ }),
                    },
                    TypeId(0),
                )
            }
        },
        ast::Type::Container(c) => spec_visit_container(st, c),
        ast::Type::Switch(_) => spec_unsupported(st, "switch"@),
        ast::Type::BitFields(b) => spec_add_type(
            st,
            hir::TypeV::BitFields(ast::view_bitfields(b.fields@)),
        ),
        ast::Type::LengthPrefixedString { count_type } => {
            let (st1, child) = spec_visit_type(st, *count_type);
            spec_add_type(st1, hir::TypeV::LengthPrefixedString(child))
        },
        ast::Type::Mapper(_) => spec_unsupported(st, "mapper"@),
    }
}

/// What visiting a container does: its fields bottom-up, then one struct
/// node over them.
pub open spec fn spec_visit_container(st: StateV, c: ast::Container) -> (StateV, TypeId)
    decreases c,
{
    let r = spec_visit_fields(st, c.fields@);
    spec_add_type(r.0, hir::TypeV::Struct(r.1))
}

/// What visiting a container's fields does, left to right.
///
/// A field whose type is a switch, and a field without a name, are
/// unsupported in the current design: each produces a diagnostic (and the
/// nameless field is left out of the struct).
pub open spec fn spec_visit_fields(st: StateV, fs: Seq<ast::Field>) -> (StateV, Seq<
    hir::FieldV,
>)
    decreases fs,
{
    if fs.len() == 0 {
        (st, Seq::empty())
    } else {
        let r1 = if fs[0].ty is Switch {
            spec_unsupported(st, "switch"@)
        } else {
            spec_visit_type(st, fs[0].ty)
        };
        let st1 = r1.0;
        let id = r1.1;
        let r2 = match fs[0].name {
            Option::Some(n) => (st1, seq![hir::FieldV { name: n@, ty: id }]),
            Option::None => (
                StateV {
                    types: st1.types,
                    named: st1.named,
                    last: st1.last,
                    diags: st1.diags.push(
                        DiagnosticV::Unsupported { construct: "anonymous field"@ },
                    ),
                },
                Seq::<hir::FieldV>::empty(),
            ),
        };
        let rest = spec_visit_fields(r2.0, fs.subrange(1, fs.len() as int));
        (rest.0, r2.1 + rest.1)
    }
}

/// What lowering the document's entries does: visit each type, then
/// register its name for the entries after it.
pub open spec fn spec_lower_entries(st: StateV, entries: Seq<(String, ast::Type)>) -> StateV
    decreases entries.len(),
{
    if entries.len() == 0 {
        st
    } else {
        let r = spec_visit_type(st, entries[0].1);
        let st2 = StateV {
            types: r.0.types,
            named: assoc_insert(r.0.named, entries[0].0@, r.1),
            last: r.0.last,
            diags: r.0.diags,
        };
        spec_lower_entries(st2, entries.subrange(1, entries.len() as int))
    }
}

/// What lowering a whole protocol yields: the finished graph when no issue
/// was found, else every issue of the document — never a partially trusted
/// graph.
pub open spec fn spec_lower(p: ast::Protocol) -> Result<UnitV, Seq<DiagnosticV>> {
    let st = spec_lower_entries(init_state(), p.types@);
    if st.diags.len() == 0 {
        Ok(UnitV { types: st.types, named_types: st.named })
    } else {
        Err(st.diags)
    }
}

/// An upper bound on the nodes visiting one type can allocate.
pub open spec fn type_size(t: ast::Type) -> nat
    decreases t,
{
    match t {
        ast::Type::Container(c) => 1 + fields_size(c.fields@),
        ast::Type::LengthPrefixedString { count_type } => 1 + type_size(*count_type),
        _ => 1,
    }
}

/// An upper bound on the nodes visiting a field list can allocate.
pub open spec fn fields_size(fs: Seq<ast::Field>) -> nat
    decreases fs,
{
    if fs.len() == 0 {
        0
    } else {
        type_size(fs[0].ty) + fields_size(fs.subrange(1, fs.len() as int))
    }
}

/// An upper bound on the nodes lowering a whole document can allocate.
pub open spec fn entries_size(es: Seq<(String, ast::Type)>) -> nat
    decreases es.len(),
{
    if es.len() == 0 {
        0
    } else {
        type_size(es[0].1) + entries_size(es.subrange(1, es.len() as int))
    }
}

/// Visiting never decreases the id counter, and allocates at most
/// [`type_size`] nodes.
pub proof fn lemma_visit_type_last(st: StateV, t: ast::Type)
    requires
        st.last.0 + type_size(t) <= u32::MAX,
    ensures
        st.last.0 <= spec_visit_type(st, t).0.last.0 <= st.last.0 + type_size(t),
    decreases t,
{
    match t {
        ast::Type::Container(c) => {
            lemma_visit_container_last(st, c);
        },
        ast::Type::LengthPrefixedString { count_type } => {
            lemma_visit_type_last(st, *count_type);
        },
        _ => {},
    }
}

/// Visiting a container never decreases the id counter, and allocates at
/// most one node more than its fields do.
pub proof fn lemma_visit_container_last(st: StateV, c: ast::Container)
    requires
        st.last.0 + 1 + fields_size(c.fields@) <= u32::MAX,
    ensures
        st.last.0 <= spec_visit_container(st, c).0.last.0 <= st.last.0 + 1 + fields_size(
            c.fields@,
        ),
    decreases c,
{
    lemma_visit_fields_last(st, c.fields@);
}

/// Visiting a field list never decreases the id counter, and allocates at
/// most [`fields_size`] nodes.
pub proof fn lemma_visit_fields_last(st: StateV, fs: Seq<ast::Field>)
    requires
        st.last.0 + fields_size(fs) <= u32::MAX,
    ensures
        st.last.0 <= spec_visit_fields(st, fs).0.last.0 <= st.last.0 + fields_size(fs),
    decreases fs,
{
    if fs.len() > 0 {
        let r1 = if fs[0].ty is Switch {
            spec_unsupported(st, "switch"@)
        } else {
            spec_visit_type(st, fs[0].ty)
        };
        if !(fs[0].ty is Switch) {
            lemma_visit_type_last(st, fs[0].ty);
        }
        let st2 = match fs[0].name {
            Option::Some(_) => r1.0,
            Option::None => StateV {
                types: r1.0.types,
                named: r1.0.named,
                last: r1.0.last,
                diags: r1.0.diags.push(
                    DiagnosticV::Unsupported { construct: "anonymous field"@ },
                ),
            },
        };
        lemma_visit_fields_last(st2, fs.subrange(1, fs.len() as int));
    }
}

/// Whether an id is admissible in a state with `n` nodes: within range,
/// and the error sentinel only once an issue has been reported.
pub open spec fn ref_ok(id: TypeId, n: nat, flagged: bool) -> bool {
    id.0 <= n && (id.0 == 0 ==> flagged)
}

/// Whether every id one node mentions is admissible.
pub open spec fn node_refs_ok(t: hir::TypeV, n: nat, flagged: bool) -> bool {
    match t {
        hir::TypeV::Struct(fs) => forall|k: int|
            0 <= k < fs.len() ==> ref_ok((#[trigger] fs[k]).ty, n, flagged),
        hir::TypeV::LengthPrefixedString(id) => ref_ok(id, n, flagged),
        hir::TypeV::Collection(id) => ref_ok(id, n, flagged),
        _ => true,
    }
}

/// The resolver's running invariant: ids dense and counted by `last`,
/// registered names pairwise distinct, and every id the name table or a
/// node mentions admissible.
pub open spec fn wf_state(st: StateV) -> bool {
    &&& st.last.0 == st.types.len()
    &&& forall|i: int| 0 <= i < st.types.len() ==> (#[trigger] st.types[i]).0.0 == i + 1
    &&& forall|j: int|
        0 <= j < st.named.len() ==> ref_ok(
            (#[trigger] st.named[j]).1,
            st.types.len(),
            st.diags.len() > 0,
        )
    &&& forall|a: int, b: int|
        0 <= a < b < st.named.len() ==> (#[trigger] st.named[a]).0 != (#[trigger] st.named[b]).0
    &&& forall|i: int|
        0 <= i < st.types.len() ==> node_refs_ok(
            (#[trigger] st.types[i]).1,
            st.types.len(),
            st.diags.len() > 0,
        )
}

/// Admissibility only relaxes as the graph grows and issues accumulate.
proof fn lemma_node_refs_mono(t: hir::TypeV, n1: nat, f1: bool, n2: nat, f2: bool)
    requires
        node_refs_ok(t, n1, f1),
        n1 <= n2,
        f1 ==> f2,
    ensures
        node_refs_ok(t, n2, f2),
{
    match t {
        hir::TypeV::Struct(fs) => {
            assert forall|k: int| 0 <= k < fs.len() implies ref_ok(
                (#[trigger] fs[k]).ty,
                n2,
                f2,
            ) by {
                assert(ref_ok(fs[k].ty, n1, f1));
            }
        },
        _ => {},
    }
}

/// Allocating a node whose references are admissible keeps the state well
/// formed.
proof fn lemma_add_type_wf(st: StateV, tv: hir::TypeV)
    requires
        wf_state(st),
        st.last.0 < u32::MAX,
        node_refs_ok(tv, st.types.len(), st.diags.len() > 0),
    ensures
        ({
            let r = spec_add_type(st, tv);
            &&& wf_state(r.0)
            &&& r.0.types.len() == st.types.len() + 1
            &&& r.0.named == st.named
            &&& r.0.diags == st.diags
            &&& ref_ok(r.1, r.0.types.len(), r.0.diags.len() > 0)
        }),
{
    let r = spec_add_type(st, tv);
    let n1 = r.0.types.len();
    let flagged = st.diags.len() > 0;
    assert forall|j: int| 0 <= j < r.0.named.len() implies ref_ok(
        (#[trigger] r.0.named[j]).1,
        n1,
        flagged,
    ) by {
        assert(ref_ok(st.named[j].1, st.types.len(), flagged));
    }
    assert forall|i: int| 0 <= i < n1 implies node_refs_ok(
        (#[trigger] r.0.types[i]).1,
        n1,
        flagged,
    ) by {
        if i < st.types.len() {
            lemma_node_refs_mono(st.types[i].1, st.types.len(), flagged, n1, flagged);
        } else {
            lemma_node_refs_mono(tv, st.types.len(), flagged, n1, flagged);
        }
    }
}

/// Recording one more issue keeps the state well formed.
proof fn lemma_push_diag_wf(st: StateV, st1: StateV)
    requires
        wf_state(st),
        st1.types == st.types,
        st1.named == st.named,
        st1.last == st.last,
        st1.diags.len() > 0,
    ensures
        wf_state(st1),
{
    let n = st1.types.len();
    assert forall|j: int| 0 <= j < st1.named.len() implies ref_ok(
        (#[trigger] st1.named[j]).1,
        n,
        true,
    ) by {
        assert(ref_ok(st.named[j].1, n, st.diags.len() > 0));
    }
    assert forall|i: int| 0 <= i < n implies node_refs_ok((#[trigger] st1.types[i]).1, n, true)
        by {
        lemma_node_refs_mono(st.types[i].1, n, st.diags.len() > 0, n, true);
    }
}

/// Visiting one type keeps the state well formed, leaves the name table
/// alone, and resolves to an admissible id.
pub proof fn lemma_visit_type_wf(st: StateV, t: ast::Type)
    requires
        wf_state(st),
        st.last.0 + type_size(t) <= u32::MAX,
    ensures
        ({
            let r = spec_visit_type(st, t);
            &&& wf_state(r.0)
            &&& st.types.len() <= r.0.types.len()
            &&& st.diags.len() <= r.0.diags.len()
            &&& r.0.named == st.named
            &&& ref_ok(r.1, r.0.types.len(), r.0.diags.len() > 0)
        }),
    decreases t,
{
    match t {
        ast::Type::Native => {
            lemma_add_type_wf(st, hir::TypeV::Native);
        },
        ast::Type::Named(name) => {
            if assoc_has(st.named, name@) {
                crate::table::lemma_assoc_index(st.named, name@);
            }
        },
        ast::Type::Container(c) => {
            lemma_visit_container_wf(st, c);
        },
        ast::Type::Switch(_) => {
            lemma_push_diag_wf(st, spec_unsupported(st, "switch"@).0);
        },
        ast::Type::BitFields(b) => {
            lemma_add_type_wf(st, hir::TypeV::BitFields(ast::view_bitfields(b.fields@)));
        },
        ast::Type::LengthPrefixedString { count_type } => {
            lemma_visit_type_wf(st, *count_type);
            lemma_visit_type_last(st, *count_type);
            let r1 = spec_visit_type(st, *count_type);
            lemma_add_type_wf(r1.0, hir::TypeV::LengthPrefixedString(r1.1));
        },
        ast::Type::Mapper(_) => {
            lemma_push_diag_wf(st, spec_unsupported(st, "mapper"@).0);
        },
    }
}

/// Visiting a container keeps the state well formed and yields an
/// admissible struct node.
pub proof fn lemma_visit_container_wf(st: StateV, c: ast::Container)
    requires
        wf_state(st),
        st.last.0 + 1 + fields_size(c.fields@) <= u32::MAX,
    ensures
        ({
            let r = spec_visit_container(st, c);
            &&& wf_state(r.0)
            &&& st.types.len() <= r.0.types.len()
            &&& st.diags.len() <= r.0.diags.len()
            &&& r.0.named == st.named
            &&& ref_ok(r.1, r.0.types.len(), r.0.diags.len() > 0)
        }),
    decreases c,
{
    lemma_visit_fields_wf(st, c.fields@);
    lemma_visit_fields_last(st, c.fields@);
    let r1 = spec_visit_fields(st, c.fields@);
    assert(node_refs_ok(
        hir::TypeV::Struct(r1.1),
        r1.0.types.len(),
        r1.0.diags.len() > 0,
    ));
    lemma_add_type_wf(r1.0, hir::TypeV::Struct(r1.1));
}

/// Visiting a field list keeps the state well formed and yields fields
/// whose ids are all admissible.
pub proof fn lemma_visit_fields_wf(st: StateV, fs: Seq<ast::Field>)
    requires
        wf_state(st),
        st.last.0 + fields_size(fs) <= u32::MAX,
    ensures
        ({
            let r = spec_visit_fields(st, fs);
            &&& wf_state(r.0)
            &&& st.types.len() <= r.0.types.len()
            &&& st.diags.len() <= r.0.diags.len()
            &&& r.0.named == st.named
            &&& forall|k: int|
                0 <= k < r.1.len() ==> ref_ok(
                    (#[trigger] r.1[k]).ty,
                    r.0.types.len(),
                    r.0.diags.len() > 0,
                )
        }),
    decreases fs,
{
    if fs.len() > 0 {
        let r1 = if fs[0].ty is Switch {
            spec_unsupported(st, "switch"@)
        } else {
            spec_visit_type(st, fs[0].ty)
        };
        if fs[0].ty is Switch {
            lemma_push_diag_wf(st, r1.0);
        } else {
            lemma_visit_type_wf(st, fs[0].ty);
            lemma_visit_type_last(st, fs[0].ty);
        }
        let st2 = match fs[0].name {
            Option::Some(_) => r1.0,
            Option::None => StateV {
                types: r1.0.types,
                named: r1.0.named,
                last: r1.0.last,
                diags: r1.0.diags.push(
                    DiagnosticV::Unsupported { construct: "anonymous field"@ },
                ),
            },
        };
        if fs[0].name is None {
            lemma_push_diag_wf(r1.0, st2);
        }
        let rest = fs.subrange(1, fs.len() as int);
        lemma_visit_fields_wf(st2, rest);
        let r3 = spec_visit_fields(st2, rest);
        let r = spec_visit_fields(st, fs);
        assert forall|k: int| 0 <= k < r.1.len() implies ref_ok(
            (#[trigger] r.1[k]).ty,
            r.0.types.len(),
            r.0.diags.len() > 0,
        ) by {
            if fs[0].name is Some && k == 0 {
                assert(r.1[0].ty == r1.1);
                assert(ref_ok(r1.1, r1.0.types.len(), r1.0.diags.len() > 0));
            } else {
                let off = if fs[0].name is Some { 1int } else { 0int };
                assert(r.1[k] == r3.1[k - off]);
                assert(ref_ok(r3.1[k - off].ty, r3.0.types.len(), r3.0.diags.len() > 0));
            }
        }
    }
}

/// Lowering a list of entries from a well-formed state ends in a
/// well-formed state.
pub proof fn lemma_lower_entries_wf(st: StateV, entries: Seq<(String, ast::Type)>)
    requires
        wf_state(st),
        st.last.0 + entries_size(entries) <= u32::MAX,
    ensures
        wf_state(spec_lower_entries(st, entries)),
    decreases entries.len(),
{
    if entries.len() > 0 {
        lemma_visit_type_wf(st, entries[0].1);
        lemma_visit_type_last(st, entries[0].1);
        let r = spec_visit_type(st, entries[0].1);
        let inserted = assoc_insert(r.0.named, entries[0].0@, r.1);
        let st2 = StateV { types: r.0.types, named: inserted, last: r.0.last, diags: r.0.diags };
        let n1 = r.0.types.len();
        let f1 = r.0.diags.len() > 0;
        crate::table::lemma_assoc_index(r.0.named, entries[0].0@);
        assert forall|j: int| 0 <= j < inserted.len() implies ref_ok(
            (#[trigger] inserted[j]).1,
            n1,
            f1,
        ) by {
            let idx = assoc_index(r.0.named, entries[0].0@);
            if idx < 0 {
                if j < r.0.named.len() {
                    assert(inserted[j] == r.0.named[j]);
                } else {
                    assert(inserted[j] == (entries[0].0@, r.1));
                }
            } else {
                if j == idx {
                    assert(inserted[j] == (entries[0].0@, r.1));
                } else {
                    assert(inserted[j] == r.0.named[j]);
                }
            }
        }
        assert(wf_state(st2));
        lemma_lower_entries_wf(st2, entries.subrange(1, entries.len() as int));
    }
}

/// A unit that lowering hands out is well formed: there were no issues, so
/// no sentinel survives anywhere in it.
pub proof fn lemma_lower_wf(p: ast::Protocol)
    requires
        entries_size(p.types@) <= u32::MAX,
    ensures
        spec_lower(p) matches Ok(u) ==> wf_unit(u),
{
    assert(wf_state(init_state()));
    lemma_lower_entries_wf(init_state(), p.types@);
    let st = spec_lower_entries(init_state(), p.types@);
    if st.diags.len() == 0 {
        let u = UnitV { types: st.types, named_types: st.named };
        assert forall|j: int| 0 <= j < u.named_types.len() implies 1 <= (
        #[trigger] u.named_types[j]).1.0 <= u.types.len() by {
            assert(ref_ok(st.named[j].1, st.types.len(), false));
        }
        assert forall|i: int| 0 <= i < u.types.len() implies crate::lowering::hir::unit_node_ok(
            (#[trigger] u.types[i]).1,
            u.types.len(),
        ) by {
            assert(node_refs_ok(st.types[i].1, st.types.len(), false));
            match st.types[i].1 {
                hir::TypeV::Struct(fs) => {
                    assert forall|k: int| 0 <= k < fs.len() implies 1 <= (
                    #[trigger] fs[k]).ty.0 <= u.types.len() by {
                        assert(ref_ok(fs[k].ty, st.types.len(), false));
                    }
                },
                _ => {},
            }
        }
    }
}

/// The node budget one type needs, for checking [`lower`]'s size bound.
pub fn type_size_of(t: &ast::Type) -> (r: Option<u64>)
    ensures
        match r {
            Some(n) => n == type_size(*t),
            None => type_size(*t) > u64::MAX,
        },
    decreases *t,
{
    match t {
        ast::Type::Container(c) => {
            proof {
                assert(decreases_to!(*t => t->Container_0));
                assert(decreases_to!(t->Container_0 => c.fields));
                assert(decreases_to!(c.fields => c.fields@));
                assert(c.fields@.subrange(0, c.fields@.len() as int) =~= c.fields@);
            }
            match fields_size_of(&c.fields, 0) {
                Some(n) => {
                    if n == u64::MAX {
                        None
                    } else {
                        Some(n + 1)
                    }
                },
                None => None,
            }
        },
        ast::Type::LengthPrefixedString { count_type } => {
            proof {
                assert(decreases_to!(*t => t->LengthPrefixedString_count_type));
            }
            match type_size_of(count_type) {
                Some(n) => {
                    if n == u64::MAX {
                        None
                    } else {
                        Some(n + 1)
                    }
                },
                None => None,
            }
        },
        _ => Some(1),
    }
}

/// The node budget of a field list from `idx` on.
fn fields_size_of(fields: &Vec<ast::Field>, idx: usize) -> (r: Option<u64>)
    requires
        idx <= fields@.len(),
    ensures
        ({
            let total = fields_size(fields@.subrange(idx as int, fields@.len() as int));
            match r {
                Some(n) => n == total,
                None => total > u64::MAX,
            }
        }),
    decreases fields@.subrange(idx as int, fields@.len() as int),
{
    let ghost sub = fields@.subrange(idx as int, fields@.len() as int);
    if idx == fields.len() {
        proof {
            assert(sub =~= Seq::<ast::Field>::empty());
        }
        return Some(0);
    }
    proof {
        assert(sub[0] == fields@[idx as int]);
        assert(decreases_to!(sub => sub[0]));
        assert(sub.subrange(1, sub.len() as int) =~= fields@.subrange(
            idx + 1 as int,
            fields@.len() as int,
        ));
    }
    let a = match type_size_of(&fields[idx].ty) {
        Some(a) => a,
        None => return None,
    };
    let b = match fields_size_of(fields, idx + 1) {
        Some(b) => b,
        None => return None,
    };
    if a > u64::MAX - b {
        None
    } else {
        Some(a + b)
    }
}

/// The node budget a whole protocol needs: callers check this against
/// `u32::MAX` before calling [`lower`].
pub fn protocol_size(p: &ast::Protocol) -> (r: Option<u64>)
    ensures
        match r {
            Some(n) => n == entries_size(p.types@),
            None => entries_size(p.types@) > u64::MAX,
        },
{
    proof {
        assert(p.types@.subrange(0, p.types@.len() as int) =~= p.types@);
    }
    entries_size_of(&p.types, 0)
}

/// The node budget of an entry list from `idx` on.
fn entries_size_of(entries: &Vec<(String, ast::Type)>, idx: usize) -> (r: Option<u64>)
    requires
        idx <= entries@.len(),
    ensures
        ({
            let total = entries_size(entries@.subrange(idx as int, entries@.len() as int));
            match r {
                Some(n) => n == total,
                None => total > u64::MAX,
            }
        }),
    decreases entries@.len() - idx,
{
    let ghost sub = entries@.subrange(idx as int, entries@.len() as int);
    if idx == entries.len() {
        proof {
            assert(sub =~= Seq::<(String, ast::Type)>::empty());
        }
        return Some(0);
    }
    proof {
        assert(sub[0] == entries@[idx as int]);
        assert(sub.subrange(1, sub.len() as int) =~= entries@.subrange(
            idx + 1 as int,
            entries@.len() as int,
        ));
    }
    let a = match type_size_of(&entries[idx].1) {
        Some(a) => a,
        None => return None,
    };
    let b = match entries_size_of(entries, idx + 1) {
        Some(b) => b,
        None => return None,
    };
    if a > u64::MAX - b {
        None
    } else {
        Some(a + b)
    }
}

/// The keys of a name table.
pub open spec fn table_keys(named: Seq<(Seq<char>, TypeId)>) -> Seq<Seq<char>> {
    Seq::new(named.len(), |j: int| named[j].0)
}

/// Whether a name is among some keys.
pub open spec fn key_present(keys: Seq<Seq<char>>, name: Seq<char>) -> bool {
    exists|j: int| 0 <= j < keys.len() && keys[j] == name
}

/// The diagnostics visiting one type emits, given which names are
/// declared: one `MissingName` per unresolved named occurrence, one
/// `Unsupported` per switch or mapper, in traversal order.
pub open spec fn type_diags(keys: Seq<Seq<char>>, t: ast::Type) -> Seq<DiagnosticV>
    decreases t,
{
    match t {
        ast::Type::Native => Seq::empty(),
        ast::Type::Named(name) => if key_present(keys, name@) {
            Seq::empty()
        } else {
            seq![DiagnosticV::MissingName { name: name@ }]
        },
        ast::Type::Container(c) => fields_diags(keys, c.fields@),
        ast::Type::Switch(_) => seq![DiagnosticV::Unsupported { construct: "switch"@ }],
        ast::Type::BitFields(_) => Seq::empty(),
        ast::Type::LengthPrefixedString { count_type } => type_diags(keys, *count_type),
        ast::Type::Mapper(_) => seq![DiagnosticV::Unsupported { construct: "mapper"@ }],
    }
}

/// The diagnostics a container's field list emits: each field's type, then
/// one `Unsupported` if the field has no name.
pub open spec fn fields_diags(keys: Seq<Seq<char>>, fs: Seq<ast::Field>) -> Seq<DiagnosticV>
    decreases fs,
{
    if fs.len() == 0 {
        Seq::empty()
    } else {
        (if fs[0].ty is Switch {
            seq![DiagnosticV::Unsupported { construct: "switch"@ }]
        } else {
            type_diags(keys, fs[0].ty)
        }) + (match fs[0].name {
            Option::Some(_) => Seq::<DiagnosticV>::empty(),
            Option::None => seq![DiagnosticV::Unsupported { construct: "anonymous field"@ }],
        }) + fields_diags(keys, fs.subrange(1, fs.len() as int))
    }
}

/// The diagnostics a whole document emits: each entry's type under the
/// names declared so far, every entry registering its name for the ones
/// after it.
pub open spec fn entries_diags(keys: Seq<Seq<char>>, entries: Seq<(String, ast::Type)>) -> Seq<
    DiagnosticV,
>
    decreases entries.len(),
{
    if entries.len() == 0 {
        Seq::empty()
    } else {
        let keys2 = if key_present(keys, entries[0].0@) {
            keys
        } else {
            keys.push(entries[0].0@)
        };
        type_diags(keys, entries[0].1) + entries_diags(
            keys2,
            entries.subrange(1, entries.len() as int),
        )
    }
}

/// A name is in a table exactly when it is among the table's keys.
proof fn lemma_key_present(named: Seq<(Seq<char>, TypeId)>, name: Seq<char>)
    ensures
        assoc_has(named, name) == key_present(table_keys(named), name),
{
    crate::table::lemma_assoc_index(named, name);
    if assoc_has(named, name) {
        let j = assoc_index(named, name);
        assert(table_keys(named)[j] == name);
    }
    if key_present(table_keys(named), name) {
        let j = choose|j: int| 0 <= j < table_keys(named).len() && table_keys(named)[j] == name;
        assert(named[j].0 == name);
    }
}

/// Inserting a pair adds its key exactly when the key was absent.
proof fn lemma_insert_keys(named: Seq<(Seq<char>, TypeId)>, name: Seq<char>, id: TypeId)
    ensures
        table_keys(assoc_insert(named, name, id)) == if assoc_has(named, name) {
            table_keys(named)
        } else {
            table_keys(named).push(name)
        },
{
    crate::table::lemma_assoc_index(named, name);
    let inserted = assoc_insert(named, name, id);
    if assoc_has(named, name) {
        let j = assoc_index(named, name);
        assert(inserted[j].0 == name);
        assert(named[j].0 == name);
        assert(table_keys(inserted) =~= table_keys(named));
    } else {
        assert(table_keys(inserted) =~= table_keys(named).push(name));
    }
}

/// Visiting one type appends exactly [`type_diags`] to the report and
/// leaves the name table alone.
pub proof fn lemma_visit_type_diags(st: StateV, t: ast::Type)
    ensures
        spec_visit_type(st, t).0.diags == st.diags + type_diags(table_keys(st.named), t),
        spec_visit_type(st, t).0.named == st.named,
    decreases t,
{
    let keys = table_keys(st.named);
    match t {
        ast::Type::Native => {
            assert(st.diags + Seq::<DiagnosticV>::empty() =~= st.diags);
        },
        ast::Type::Named(name) => {
            lemma_key_present(st.named, name@);
            if assoc_has(st.named, name@) {
                assert(st.diags + Seq::<DiagnosticV>::empty() =~= st.diags);
            } else {
                assert(st.diags + seq![DiagnosticV::MissingName { name: name@ }]
                    =~= st.diags.push(DiagnosticV::MissingName { name: name@ }));
            }
        },
        ast::Type::Container(c) => {
            lemma_visit_fields_diags(st, c.fields@);
            let r = spec_visit_fields(st, c.fields@);
            assert(r.0.diags == st.diags + fields_diags(keys, c.fields@));
            assert(spec_visit_container(st, c).0.diags == r.0.diags);
        },
        ast::Type::Switch(_) => {
            assert(st.diags + seq![DiagnosticV::Unsupported { construct: "switch"@ }]
                =~= st.diags.push(DiagnosticV::Unsupported { construct: "switch"@ }));
        },
        ast::Type::BitFields(_) => {
            assert(st.diags + Seq::<DiagnosticV>::empty() =~= st.diags);
        },
        ast::Type::LengthPrefixedString { count_type } => {
            lemma_visit_type_diags(st, *count_type);
        },
        ast::Type::Mapper(_) => {
            assert(st.diags + seq![DiagnosticV::Unsupported { construct: "mapper"@ }]
                =~= st.diags.push(DiagnosticV::Unsupported { construct: "mapper"@ }));
        },
    }
}

/// Visiting a field list appends exactly [`fields_diags`] to the report
/// and leaves the name table alone.
pub proof fn lemma_visit_fields_diags(st: StateV, fs: Seq<ast::Field>)
    ensures
        spec_visit_fields(st, fs).0.diags == st.diags + fields_diags(table_keys(st.named), fs),
        spec_visit_fields(st, fs).0.named == st.named,
    decreases fs,
{
    let keys = table_keys(st.named);
    if fs.len() == 0 {
        assert(st.diags + Seq::<DiagnosticV>::empty() =~= st.diags);
    } else {
        let head = if fs[0].ty is Switch {
            seq![DiagnosticV::Unsupported { construct: "switch"@ }]
        } else {
            type_diags(keys, fs[0].ty)
        };
        let anon = match fs[0].name {
            Option::Some(_) => Seq::<DiagnosticV>::empty(),
            Option::None => seq![DiagnosticV::Unsupported { construct: "anonymous field"@ }],
        };
        let r1 = if fs[0].ty is Switch {
            spec_unsupported(st, "switch"@)
        } else {
            spec_visit_type(st, fs[0].ty)
        };
        if fs[0].ty is Switch {
            assert(r1.0.diags =~= st.diags + head);
        } else {
            lemma_visit_type_diags(st, fs[0].ty);
        }
        let st2 = match fs[0].name {
            Option::Some(_) => r1.0,
            Option::None => StateV {
                types: r1.0.types,
                named: r1.0.named,
                last: r1.0.last,
                diags: r1.0.diags.push(
                    DiagnosticV::Unsupported { construct: "anonymous field"@ },
                ),
            },
        };
        assert(st2.diags =~= st.diags + head + anon);
        lemma_visit_fields_diags(st2, fs.subrange(1, fs.len() as int));
        let tail = fields_diags(keys, fs.subrange(1, fs.len() as int));
        assert(spec_visit_fields(st, fs).0.diags == st.diags + head + anon + tail);
        assert(st.diags + head + anon + tail =~= st.diags + (head + anon + tail));
    }
}

/// Lowering a list of entries appends exactly [`entries_diags`] to the
/// report.
pub proof fn lemma_lower_entries_diags(st: StateV, entries: Seq<(String, ast::Type)>)
    ensures
        spec_lower_entries(st, entries).diags == st.diags + entries_diags(
            table_keys(st.named),
            entries,
        ),
    decreases entries.len(),
{
    let keys = table_keys(st.named);
    if entries.len() == 0 {
        assert(st.diags + Seq::<DiagnosticV>::empty() =~= st.diags);
    } else {
        lemma_visit_type_diags(st, entries[0].1);
        let r = spec_visit_type(st, entries[0].1);
        let head = type_diags(keys, entries[0].1);
        let st2 = StateV {
            types: r.0.types,
            named: assoc_insert(r.0.named, entries[0].0@, r.1),
            last: r.0.last,
            diags: r.0.diags,
        };
        lemma_key_present(st.named, entries[0].0@);
        lemma_insert_keys(st.named, entries[0].0@, r.1);
        lemma_lower_entries_diags(st2, entries.subrange(1, entries.len() as int));
        let tail = entries_diags(table_keys(st2.named), entries.subrange(1, entries.len() as int));
        assert(spec_lower_entries(st, entries).diags == st.diags + head + tail);
        assert(st.diags + head + tail =~= st.diags + (head + tail));
    }
}

/// What a whole pass reports is exactly [`entries_diags`] of the document:
/// one `MissingName` per unresolved named occurrence and one `Unsupported`
/// per switch, mapper or anonymous field, all of them, in traversal order.
/// A document with any such issue fails with that full list; one with none
/// yields a unit — never a partially trusted graph.
pub proof fn lemma_lower_diagnostics(p: ast::Protocol)
    ensures
        ({
            let d = entries_diags(Seq::empty(), p.types@);
            match spec_lower(p) {
                Ok(_) => d.len() == 0,
                Err(ds) => ds == d && d.len() > 0,
            }
        }),
{
    lemma_lower_entries_diags(init_state(), p.types@);
    assert(table_keys(init_state().named) =~= Seq::<Seq<char>>::empty());
    let d = entries_diags(Seq::empty(), p.types@);
    assert(Seq::<DiagnosticV>::empty() + d =~= d);
}

/// Resolving a named reference that an earlier declaration satisfies
/// reuses that declaration's existing id and allocates nothing: the whole
/// state, graph included, is left exactly as it was, so a name referenced
/// twice shares one node.
pub proof fn lemma_named_reference_reuses_id(st: StateV, name: String)
    requires
        assoc_has(st.named, name@),
    ensures
        spec_visit_type(st, ast::Type::Named(name)) == (st, assoc_get(st.named, name@)),
{
}

/// Resolving a named reference that nothing declared yields the error
/// sentinel and exactly one `MissingName` diagnostic, and changes nothing
/// else: the pass is free to go on with the rest of the document.
pub proof fn lemma_missing_name_diagnostic(st: StateV, name: String)
    requires
        !assoc_has(st.named, name@),
    ensures
        ({
            let r = spec_visit_type(st, ast::Type::Named(name));
            &&& r.1 == crate::lowering::hir::error_id()
            &&& r.0.diags == st.diags.push(DiagnosticV::MissingName { name: name@ })
            &&& r.0.types == st.types
            &&& r.0.named == st.named
            &&& r.0.last == st.last
        }),
{
}

/// The resolver's working state.
#[derive(Debug)]
pub struct Analyser {
    pub types: Vec<(TypeId, hir::Type)>,
    pub named_types: Vec<(String, TypeId)>,
    pub last_id: TypeId,
    pub diagnostics: Diagnostics,
}

/// The mirror of the resolver's working state.
pub open spec fn view_analyser(a: Analyser) -> StateV {
    StateV {
        types: view_nodes(a.types@),
        named: str_entries(a.named_types@),
        last: a.last_id,
        diags: view_diagnostics(a.diagnostics.0@),
    }
}

impl Analyser {
    /// A fresh pass: nothing allocated, the id counter at the sentinel.
    pub fn new() -> (r: Analyser)
        ensures
            view_analyser(r) == init_state(),
    {
        let r = Analyser {
            types: Vec::new(),
            named_types: Vec::new(),
            last_id: TypeId::error(),
            diagnostics: Diagnostics::default(),
        };
        proof {
            assert(view_nodes(r.types@) =~= init_state().types);
            assert(str_entries(r.named_types@) =~= init_state().named);
            assert(view_diagnostics(r.diagnostics.0@) =~= init_state().diags);
        }
        r
    }

    /// Allocates one fresh node, exactly as [`spec_add_type`] describes.
    pub fn add_type(&mut self, ty: hir::Type) -> (r: TypeId)
        requires
            old(self).last_id.0 < u32::MAX,
        ensures
            (view_analyser(*final(self)), r) == spec_add_type(
                view_analyser(*old(self)),
                view_hir_type(ty),
            ),
    {
        let ghost t_view = view_hir_type(ty);
        let id = self.last_id.next();
        self.last_id = id;
        self.types.push((id, ty));
        proof {
            assert(view_nodes(self.types@) =~= view_nodes(old(self).types@).push((id, t_view)));
        }
        id
    }

    /// Registers a top-level name for the entries after it, exactly as
    /// [`assoc_insert`] describes on the name table.
    pub fn register_name(&mut self, name: &str, type_id: TypeId)
        ensures
            view_analyser(*final(self)) == (StateV {
                named: assoc_insert(str_entries(old(self).named_types@), name@, type_id),
                ..view_analyser(*old(self))
            }),
    {
        crate::table::table_insert(&mut self.named_types, name.to_owned(), type_id);
    }

    /// Looks a name up in the table registered so far.
    pub fn lookup_by_name(&self, name: &str) -> (r: Option<TypeId>)
        ensures
            ({
                let named = str_entries(self.named_types@);
                match r {
                    Some(id) => assoc_has(named, name@) && id == assoc_get(named, name@),
                    None => !assoc_has(named, name@),
                }
            }),
    {
        proof {
            crate::table::lemma_assoc_index(str_entries(self.named_types@), name@);
        }
        let n = self.named_types.len();
        let mut i: usize = 0;
        while i < n
            invariant
                n == self.named_types@.len(),
                i <= n,
                forall|j: int| 0 <= j < i ==> self.named_types@[j].0@ != name@,
            decreases n - i,
        {
            if crate::text::str_eq(self.named_types[i].0.as_str(), name) {
                proof {
                    crate::table::lemma_assoc_index_first(
                        str_entries(self.named_types@),
                        name@,
                        i as int,
                    );
                }
                return Some(self.named_types[i].1);
            }
            i += 1;
        }
        None
    }

    /// Resolves one grammar type to an id, exactly as [`spec_visit_type`]
    /// describes.
    pub fn visit_type(&mut self, ty: &ast::Type) -> (r: TypeId)
        requires
            view_analyser(*old(self)).last.0 + type_size(*ty) <= u32::MAX,
        ensures
            (view_analyser(*final(self)), r) == spec_visit_type(view_analyser(*old(self)), *ty),
        decreases *ty,
    {
        match ty {
            ast::Type::Native => self.add_type(hir::Type::Native),
            ast::Type::Named(name) => {
                match self.lookup_by_name(name.as_str()) {
                    Some(id) => id,
                    None => {
                        self.diagnostics.push(Diagnostic::MissingName { name: name.clone() });
                        proof {
                            assert(view_diagnostics(self.diagnostics.0@) =~= view_diagnostics(
                                old(self).diagnostics.0@,
                            ).push(DiagnosticV::MissingName { name: name@ }));
                        }
                        TypeId::error()
                    },
                }
            },
            ast::Type::Container(c) => self.visit_container(c),
            ast::Type::Switch(s) => self.visit_switch(s),
            ast::Type::BitFields(b) => self.visit_bitfields(b),
            ast::Type::LengthPrefixedString { count_type } => {
                let ghost st0 = view_analyser(*self);
                proof {
                    assert(decreases_to!(*ty => ty->LengthPrefixedString_count_type));
                }
                let child = self.visit_type(count_type);
                proof {
                    lemma_visit_type_last(st0, **count_type);
                }
                self.add_type(
                    hir::Type::LengthPrefixedString(
                        hir::LengthPrefixedString { count_type: child },
                    ),
                )
            },
            ast::Type::Mapper(m) => self.visit_mapper(m),
        }
    }

    /// Resolves a container to a struct node, exactly as
    /// [`spec_visit_container`] describes.
    pub fn visit_container(&mut self, container: &ast::Container) -> (r: TypeId)
        requires
            view_analyser(*old(self)).last.0 + 1 + fields_size(container.fields@) <= u32::MAX,
        ensures
            (view_analyser(*final(self)), r) == spec_visit_container(
                view_analyser(*old(self)),
                *container,
            ),
        decreases *container,
    {
        let ghost st0 = view_analyser(*self);
        proof {
            assert(container.fields@.subrange(0, container.fields@.len() as int)
                =~= container.fields@);
            assert(decreases_to!(*container => container.fields));
            assert(decreases_to!(container.fields => container.fields@));
            assert(view_hfields(Seq::<hir::Field>::empty()) =~= Seq::<hir::FieldV>::empty());
        }
        let fields = self.visit_fields(&container.fields, 0, Vec::new());
        proof {
            lemma_visit_fields_last(st0, container.fields@);
            assert(view_hfields(fields@) =~= spec_visit_fields(st0, container.fields@).1);
        }
        self.add_type(hir::Type::Struct(hir::Struct { fields }))
    }

    /// Resolves a container's fields from `idx` on, appending the resolved
    /// members to `acc`.
    fn visit_fields(&mut self, fields: &Vec<ast::Field>, idx: usize, acc: Vec<hir::Field>)
        -> (r: Vec<hir::Field>)
        requires
            idx <= fields@.len(),
            view_analyser(*old(self)).last.0 + fields_size(
                fields@.subrange(idx as int, fields@.len() as int),
            ) <= u32::MAX,
        ensures
            ({
                let res = spec_visit_fields(
                    view_analyser(*old(self)),
                    fields@.subrange(idx as int, fields@.len() as int),
                );
                &&& view_analyser(*final(self)) == res.0
                &&& view_hfields(r@) == view_hfields(acc@) + res.1
            }),
        decreases fields@.subrange(idx as int, fields@.len() as int),
    {
        let ghost sub = fields@.subrange(idx as int, fields@.len() as int);
        if idx == fields.len() {
            proof {
                assert(sub =~= Seq::<ast::Field>::empty());
                assert(view_hfields(acc@) + Seq::<hir::FieldV>::empty() =~= view_hfields(acc@));
            }
            return acc;
        }
        proof {
            assert(sub[0] == fields@[idx as int]);
        }
        let ghost st0 = view_analyser(*self);
        let f = &fields[idx];
        let id = match &f.ty {
            ast::Type::Switch(_) => {
                self.diagnostics.push(
                    Diagnostic::Unsupported { construct: "switch".to_owned() },
                );
                proof {
                    assert(view_diagnostics(self.diagnostics.0@) =~= st0.diags.push(
                        DiagnosticV::Unsupported { construct: "switch"@ },
                    ));
                }
                TypeId::error()
            },
            _ => {
                proof {
                    assert(decreases_to!(sub => sub[0]));
                }
                self.visit_type(&f.ty)
            },
        };
        let ghost r1 = if sub[0].ty is Switch {
            spec_unsupported(st0, "switch"@)
        } else {
            spec_visit_type(st0, sub[0].ty)
        };
        proof {
            assert(view_analyser(*self) == r1.0 && id == r1.1);
            if !(sub[0].ty is Switch) {
                lemma_visit_type_last(st0, sub[0].ty);
            }
        }
        let mut acc2 = acc;
        match &f.name {
            Some(n) => {
                acc2.push(hir::Field { name: n.clone(), ty: id });
                proof {
                    assert(view_hfields(acc2@) =~= view_hfields(acc@) + seq![
                        hir::FieldV { name: n@, ty: id },
                    ]);
                }
            },
            None => {
                self.diagnostics.push(
                    Diagnostic::Unsupported { construct: "anonymous field".to_owned() },
                );
                proof {
                    assert(view_diagnostics(self.diagnostics.0@) =~= r1.0.diags.push(
                        DiagnosticV::Unsupported { construct: "anonymous field"@ },
                    ));
                    assert(view_hfields(acc2@) + Seq::<hir::FieldV>::empty() =~= view_hfields(
                        acc2@,
                    ));
                }
            },
        }
        proof {
            assert(sub.subrange(1, sub.len() as int) =~= fields@.subrange(
                idx + 1 as int,
                fields@.len() as int,
            ));
        }
        let r = self.visit_fields(fields, idx + 1, acc2);
        proof {
            let res = spec_visit_fields(st0, sub);
            assert(view_hfields(acc@) + res.1 =~= view_hfields(r@));
        }
        r
    }

    /// Reports a switch as unsupported: the current design does not lower
    /// discriminated unions yet.
    pub fn visit_switch(&mut self, _switch: &ast::Switch) -> (r: TypeId)
        ensures
            (view_analyser(*final(self)), r) == spec_unsupported(
                view_analyser(*old(self)),
                "switch"@,
            ),
    {
        self.diagnostics.push(Diagnostic::Unsupported { construct: "switch".to_owned() });
        proof {
            assert(view_diagnostics(self.diagnostics.0@) =~= view_diagnostics(
                old(self).diagnostics.0@,
            ).push(DiagnosticV::Unsupported { construct: "switch"@ }));
        }
        TypeId::error()
    }

    /// Copies bit-level fields into one fresh node, exactly as the
    /// bit-field arm of [`spec_visit_type`] describes.
    pub fn visit_bitfields(&mut self, bitfields: &ast::BitFields) -> (r: TypeId)
        requires
            view_analyser(*old(self)).last.0 + 1 <= u32::MAX,
        ensures
            (view_analyser(*final(self)), r) == spec_add_type(
                view_analyser(*old(self)),
                hir::TypeV::BitFields(ast::view_bitfields(bitfields.fields@)),
            ),
    {
        let fields = bitfields.fields.clone();
        proof {
            assert forall|i: int| 0 <= i < fields@.len() implies fields@[i]
                == bitfields.fields@[i] by {
                assert(cloned(bitfields.fields@[i], fields@[i]));
            }
            assert(ast::view_bitfields(fields@) =~= ast::view_bitfields(bitfields.fields@));
        }
        self.add_type(hir::Type::BitFields(hir::BitFields { fields }))
    }

    /// Reports a mapper as unsupported: the current design does not lower
    /// value/name tables yet.
    pub fn visit_mapper(&mut self, _mapper: &ast::Mapper) -> (r: TypeId)
        ensures
            (view_analyser(*final(self)), r) == spec_unsupported(
                view_analyser(*old(self)),
                "mapper"@,
            ),
    {
        self.diagnostics.push(Diagnostic::Unsupported { construct: "mapper".to_owned() });
        proof {
            assert(view_diagnostics(self.diagnostics.0@) =~= view_diagnostics(
                old(self).diagnostics.0@,
            ).push(DiagnosticV::Unsupported { construct: "mapper"@ }));
        }
        TypeId::error()
    }

    /// Ends the pass: the finished unit when no issue was found, else every
    /// issue — never a partially trusted graph.
    pub fn finalise(self) -> (r: Result<CompilationUnit, Diagnostics>)
        ensures
            ({
                let st = view_analyser(self);
                match r {
                    Ok(u) => st.diags.len() == 0 && view_unit(u) == (UnitV {
                        types: st.types,
                        named_types: st.named,
                    }),
                    Err(d) => st.diags.len() > 0 && view_diagnostics(d.0@) == st.diags,
                }
            }),
    {
        let Analyser { types, named_types, last_id: _, diagnostics } = self;
        if diagnostics.0.len() == 0 {
            Ok(CompilationUnit { types, named_types })
        } else {
            Err(diagnostics)
        }
    }
}

/// Lowers a protocol document to its type graph, exactly as [`spec_lower`]
/// describes: either a finished, fully resolved unit, or every issue found
/// in one pass.
///
/// The size bound keeps the dense `u32` ids from running out; it holds for
/// any document that fits in memory.
pub fn lower(protocol: &ast::Protocol) -> (r: Result<CompilationUnit, Diagnostics>)
    requires
        entries_size(protocol.types@) <= u32::MAX,
    ensures
        match r {
            Ok(u) => spec_lower(*protocol) == Ok::<UnitV, Seq<DiagnosticV>>(view_unit(u))
                && wf_unit(view_unit(u)),
            Err(d) => spec_lower(*protocol) == Err::<UnitV, Seq<DiagnosticV>>(
                view_diagnostics(d.0@),
            ),
        },
{
    proof {
        lemma_lower_wf(*protocol);
    }
    let mut analyser = Analyser::new();
    let n = protocol.types.len();
    let ghost whole = protocol.types@;
    proof {
        assert(whole.subrange(0, whole.len() as int) =~= whole);
    }
    let mut i: usize = 0;
    while i < n
        invariant
            n == protocol.types@.len(),
            whole == protocol.types@,
            i <= n,
            spec_lower_entries(init_state(), whole) == spec_lower_entries(
                view_analyser(analyser),
                whole.subrange(i as int, whole.len() as int),
            ),
            view_analyser(analyser).last.0 + entries_size(
                whole.subrange(i as int, whole.len() as int),
            ) <= u32::MAX,
        decreases n - i,
    {
        let ghost sub = whole.subrange(i as int, whole.len() as int);
        let ghost st0 = view_analyser(analyser);
        proof {
            assert(sub[0] == whole[i as int]);
        }
        let id = analyser.visit_type(&protocol.types[i].1);
        proof {
            lemma_visit_type_last(st0, whole[i as int].1);
        }
        analyser.register_name(protocol.types[i].0.as_str(), id);
        proof {
            assert(sub.subrange(1, sub.len() as int) =~= whole.subrange(
                i + 1 as int,
                whole.len() as int,
            ));
        }
        i += 1;
    }
    proof {
        assert(whole.subrange(n as int, whole.len() as int) =~= Seq::<
            (String, ast::Type),
        >::empty());
    }
    analyser.finalise()
}

} // verus!
