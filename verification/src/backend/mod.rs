//! Code generation: from a resolved compilation unit to Rust type
//! definitions, plus the minimal set of foreign-primitive imports.
//!
//! The generator is a pure function of the unit: [`spec_generate`] says
//! exactly which import list and which definitions come out, and
//! [`generate_rust`] is proved to return precisely that. Turning the
//! result into a token stream and running a source formatter over it is
//! cosmetic work left to the caller.

use crate::lowering::hir;
use crate::lowering::hir::{view_unit, wf_unit, CompilationUnit, TypeId, UnitV};
use crate::text::{dec_str, u64_to_string, view_strings};
use vstd::prelude::*;

verus! {

/// One generated definition.
#[derive(Debug, PartialEq)]
pub enum RustItem {
    /// A public record type with one public field per member.
    Struct { name: String, fields: Vec<(String, String)> },
    /// A distinct wrapper type holding one text value, for a
    /// length-prefixed string.
    StringWrapper { name: String },
}

/// The generated module: at most one combined import of foreign
/// primitives, then one definition per non-native node, in graph order.
#[derive(Debug, PartialEq)]
pub struct RustModule {
    pub imports: Vec<String>,
    pub items: Vec<RustItem>,
}

/// Mirror of [`RustItem`].
pub enum ItemV {
    Struct { name: Seq<char>, fields: Seq<(Seq<char>, Seq<char>)> },
    StringWrapper { name: Seq<char> },
}

/// Mirror of [`RustModule`].
pub struct ModuleV {
    pub imports: Seq<Seq<char>>,
    pub items: Seq<ItemV>,
}

/// The mirror of one generated definition.
pub open spec fn view_item(it: RustItem) -> ItemV {
    match it {
        RustItem::Struct { name, fields } => ItemV::Struct {
            name: name@,
            fields: Seq::new(fields@.len(), |k: int| (fields@[k].0@, fields@[k].1@)),
        },
        RustItem::StringWrapper { name } => ItemV::StringWrapper { name: name@ },
    }
}

/// The mirror of a definition list.
pub open spec fn view_items(s: Seq<RustItem>) -> Seq<ItemV> {
    Seq::new(s.len(), |i: int| view_item(s[i]))
}

/// The mirror of a generated module.
pub open spec fn view_module(m: RustModule) -> ModuleV {
    ModuleV { imports: view_strings(m.imports@), items: view_items(m.items@) }
}

/// The index of the first name-table entry registered for `id`, or `-1`.
pub open spec fn name_index(named: Seq<(Seq<char>, TypeId)>, id: TypeId) -> int
    decreases named.len(),
{
    if named.len() == 0 {
        -1
    } else if named[0].1 == id {
        0
    } else {
        let rest = name_index(named.subrange(1, named.len() as int), id);
        if rest < 0 {
            -1
        } else {
            rest + 1
        }
    }
}

/// `name_index` returns either `-1` with no match anywhere, or the first
/// matching position.
proof fn lemma_name_index(named: Seq<(Seq<char>, TypeId)>, id: TypeId)
    ensures
        name_index(named, id) == -1 ==> forall|i: int|
            0 <= i < named.len() ==> named[i].1 != id,
        name_index(named, id) >= 0 ==> {
            let j = name_index(named, id);
            &&& j < named.len()
            &&& named[j].1 == id
            &&& forall|i: int| 0 <= i < j ==> named[i].1 != id
        },
    decreases named.len(),
{
    if named.len() > 0 {
        let rest = named.subrange(1, named.len() as int);
        lemma_name_index(rest, id);
        assert(forall|i: int| 1 <= i < named.len() ==> named[i] == rest[i - 1]);
    }
}

/// When position `j` holds `id` and nothing before it does, `name_index`
/// finds exactly `j`.
proof fn lemma_name_index_first(named: Seq<(Seq<char>, TypeId)>, id: TypeId, j: int)
    requires
        0 <= j < named.len(),
        named[j].1 == id,
        forall|i: int| 0 <= i < j ==> named[i].1 != id,
    ensures
        name_index(named, id) == j,
    decreases j,
{
    if j > 0 {
        let rest = named.subrange(1, named.len() as int);
        assert(forall|i: int| 1 <= i < named.len() ==> named[i] == rest[i - 1]);
        lemma_name_index_first(rest, id, j - 1);
    }
}

/// The length of the longest registered name.
pub open spec fn max_key_len(named: Seq<(Seq<char>, TypeId)>) -> nat
    decreases named.len(),
{
    if named.len() == 0 {
        0
    } else {
        let rest = max_key_len(named.drop_last());
        if named.last().0.len() > rest {
            named.last().0.len()
        } else {
            rest
        }
    }
}

/// No registered name is longer than [`max_key_len`].
proof fn lemma_max_key_len(named: Seq<(Seq<char>, TypeId)>)
    ensures
        forall|k: int| 0 <= k < named.len() ==> (#[trigger] named[k]).0.len() <= max_key_len(
            named,
        ),
    decreases named.len(),
{
    if named.len() > 0 {
        lemma_max_key_len(named.drop_last());
        assert forall|k: int| 0 <= k < named.len() implies (#[trigger] named[k]).0.len()
            <= max_key_len(named) by {
            if k < named.len() - 1 {
                assert(named.drop_last()[k] == named[k]);
                assert(named.drop_last()[k].0.len() <= max_key_len(named.drop_last()));
            } else {
                assert(named[k] == named.last());
            }
        }
    }
}

/// `j` underscores.
pub open spec fn underscores(j: nat) -> Seq<char> {
    Seq::new(j, |i: int| '_')
}

/// How many underscores a synthetic name carries: just enough padding to
/// make every synthetic name longer than every registered name, so the two
/// families can never collide.
pub open spec fn synth_pad(u: UnitV) -> nat {
    let widest = max_key_len(u.named_types);
    let prefix = "AnonymousType"@.len();
    if widest + 1 <= prefix {
        0
    } else {
        (widest + 1 - prefix) as nat
    }
}

/// The synthetic identifier of an unregistered node: a fixed prefix, the
/// unit's padding, then the node's numeric id in decimal.
pub open spec fn synthetic_name(u: UnitV, id: TypeId) -> Seq<char> {
    "AnonymousType"@ + underscores(synth_pad(u)) + dec_str(id.0 as nat)
}

/// The one identifier a node goes by: its first registered name if it has
/// one, else a synthetic name derived from its numeric id — stable across
/// runs either way, and never equal to any other node's identifier.
pub open spec fn spec_type_name(u: UnitV, id: TypeId) -> Seq<char> {
    let j = name_index(u.named_types, id);
    if j >= 0 {
        u.named_types[j].0
    } else {
        synthetic_name(u, id)
    }
}

/// One occurrence of `id` as a struct member: node `i`'s field `k`.
pub open spec fn struct_ref(u: UnitV, id: TypeId, i: int, k: int) -> bool {
    &&& 0 <= i < u.types.len()
    &&& u.types[i].1 is Struct
    &&& 0 <= k < u.types[i].1->Struct_0.len()
    &&& u.types[i].1->Struct_0[k].ty == id
}

/// Whether `id` must be imported: it names a native node, and some struct
/// field references it.
pub open spec fn referenced_native(u: UnitV, id: TypeId) -> bool {
    &&& 1 <= id.0 <= u.types.len()
    &&& u.types[id.0 - 1].1 is Native
    &&& exists|i: int, k: int| struct_ref(u, id, i, k)
}

/// The ids to import among `1..=m`, in increasing id order.
pub open spec fn spec_import_ids(u: UnitV, m: nat) -> Seq<TypeId>
    decreases m,
{
    if m == 0 {
        Seq::empty()
    } else {
        spec_import_ids(u, (m - 1) as nat) + (if referenced_native(u, TypeId(m as u32)) {
            seq![TypeId(m as u32)]
        } else {
            Seq::empty()
        })
    }
}

/// The import list: the name of every referenced native node, each exactly
/// once, in increasing id order.
pub open spec fn spec_imports(u: UnitV) -> Seq<Seq<char>> {
    spec_import_ids(u, u.types.len()).map_values(|id: TypeId| spec_type_name(u, id))
}

/// The definitions for the nodes from position `i` on: nothing for a
/// native node, a record for a struct, a wrapper for a length-prefixed
/// string.
pub open spec fn spec_items(u: UnitV, i: int) -> Seq<ItemV>
    decreases u.types.len() - i,
{
    if i < 0 || i >= u.types.len() {
        Seq::empty()
    } else {
        (match u.types[i].1 {
            hir::TypeV::Struct(fs) => seq![
                ItemV::Struct {
                    name: spec_type_name(u, u.types[i].0),
                    fields: Seq::new(
                        fs.len(),
                        |k: int| (fs[k].name, spec_type_name(u, fs[k].ty)),
                    ),
                },
            ],
            hir::TypeV::LengthPrefixedString(_) => seq![
                ItemV::StringWrapper { name: spec_type_name(u, u.types[i].0) },
            ],
            _ => Seq::empty(),
        }) + spec_items(u, i + 1)
    }
}

/// What generating a whole unit yields.
pub open spec fn spec_generate(u: UnitV) -> ModuleV {
    ModuleV { imports: spec_imports(u), items: spec_items(u, 0) }
}

/// Whether the generator covers every node of the unit: discriminated
/// unions, standalone bit fields and collections have no generated shape
/// in the current design.
pub open spec fn generatable(u: UnitV) -> bool {
    forall|i: int|
        0 <= i < u.types.len() ==> match (#[trigger] u.types[i]).1 {
            hir::TypeV::Native => true,
            hir::TypeV::Struct(_) => true,
            hir::TypeV::LengthPrefixedString(_) => true,
            _ => false,
        }
}

/// Every id is imported at most once: the import ids strictly increase.
pub proof fn lemma_imports_deduplicated(u: UnitV, m: nat)
    requires
        m <= u32::MAX,
    ensures
        forall|a: int, b: int|
            0 <= a < b < spec_import_ids(u, m).len() ==> (#[trigger] spec_import_ids(u, m)[a]).0
                < (#[trigger] spec_import_ids(u, m)[b]).0,
        forall|a: int|
            0 <= a < spec_import_ids(u, m).len() ==> 1 <= (#[trigger] spec_import_ids(
                u,
                m,
            )[a]).0 <= m,
    decreases m,
{
    if m > 0 {
        lemma_imports_deduplicated(u, (m - 1) as nat);
        let prev = spec_import_ids(u, (m - 1) as nat);
        let ids = spec_import_ids(u, m);
        assert forall|a: int, b: int| 0 <= a < b < ids.len() implies (#[trigger] ids[a]).0 < (
        #[trigger] ids[b]).0 by {
            if b < prev.len() {
                assert(ids[a] == prev[a]);
                assert(ids[b] == prev[b]);
            } else {
                assert(ids[b].0 == m);
                assert(ids[a] == prev[a]);
            }
        }
        assert forall|a: int| 0 <= a < ids.len() implies 1 <= (#[trigger] ids[a]).0 <= m by {
            if a < prev.len() {
                assert(ids[a] == prev[a]);
            } else {
                assert(ids[a].0 == m);
            }
        }
    }
}

/// The import list holds exactly the referenced native ids: every id in it
/// is a referenced native, and every referenced native id is in it.
pub proof fn lemma_imports_complete(u: UnitV, m: nat)
    requires
        m <= u32::MAX,
    ensures
        forall|id: TypeId| #[trigger]
            spec_import_ids(u, m).contains(id) <==> (referenced_native(u, id) && 1 <= id.0
                <= m),
    decreases m,
{
    if m == 0 {
        assert forall|id: TypeId| !(#[trigger] spec_import_ids(u, m).contains(id)) by {
            assert(spec_import_ids(u, 0).len() == 0);
        }
    } else {
        lemma_imports_complete(u, (m - 1) as nat);
        let prev = spec_import_ids(u, (m - 1) as nat);
        let ids = spec_import_ids(u, m);
        assert forall|id: TypeId| #[trigger]
            ids.contains(id) <==> (referenced_native(u, id) && 1 <= id.0 <= m) by {
            if referenced_native(u, TypeId(m as u32)) {
                assert(ids[prev.len() as int] == TypeId(m as u32));
                assert(ids.contains(TypeId(m as u32)));
            }
            if ids.contains(id) {
                let w = choose|w: int| 0 <= w < ids.len() && ids[w] == id;
                if w < prev.len() {
                    assert(prev[w] == id);
                    assert(prev.contains(id));
                } else {
                    assert(id == TypeId(m as u32));
                }
            }
            if prev.contains(id) {
                let w = choose|w: int| 0 <= w < prev.len() && prev[w] == id;
                assert(ids[w] == id);
                assert(ids.contains(id));
            }
        }
    }
}

/// Distinct nodes get distinct identifiers: registered names are pairwise
/// distinct in a well-formed unit, synthetic names carry distinct
/// numerals, and the padding makes every synthetic name longer than every
/// registered one.
pub proof fn lemma_type_name_injective(u: UnitV, id1: TypeId, id2: TypeId)
    requires
        wf_unit(u),
        id1 != id2,
    ensures
        spec_type_name(u, id1) != spec_type_name(u, id2),
{
    let named = u.named_types;
    lemma_name_index(named, id1);
    lemma_name_index(named, id2);
    lemma_max_key_len(named);
    crate::text::lemma_dec_str_len(id1.0 as nat);
    crate::text::lemma_dec_str_len(id2.0 as nat);
    let j1 = name_index(named, id1);
    let j2 = name_index(named, id2);
    let prefix = "AnonymousType"@;
    let pad = underscores(synth_pad(u));
    assert(synthetic_name(u, id1).len() == prefix.len() + synth_pad(u) + dec_str(
        id1.0 as nat,
    ).len());
    assert(synthetic_name(u, id2).len() == prefix.len() + synth_pad(u) + dec_str(
        id2.0 as nat,
    ).len());
    assert(synthetic_name(u, id1).len() > max_key_len(named));
    assert(synthetic_name(u, id2).len() > max_key_len(named));
    if j1 >= 0 && j2 >= 0 {
        assert(named[j1].1 == id1 && named[j2].1 == id2);
        assert(j1 != j2);
        if j1 < j2 {
            assert(named[j1].0 != named[j2].0);
        } else {
            assert(named[j2].0 != named[j1].0);
        }
    } else if j1 >= 0 {
        assert(named[j1].0.len() <= max_key_len(named));
    } else if j2 >= 0 {
        assert(named[j2].0.len() <= max_key_len(named));
    } else {
        if spec_type_name(u, id1) == spec_type_name(u, id2) {
            crate::text::lemma_concat_left_cancel(
                prefix + pad,
                dec_str(id1.0 as nat),
                dec_str(id2.0 as nat),
            );
            crate::text::lemma_dec_str_injective(id1.0 as nat, id2.0 as nat);
            assert(false);
        }
    }
}

/// The ids of the nodes from position `i` on that yield a definition.
pub open spec fn spec_item_ids(u: UnitV, i: int) -> Seq<TypeId>
    decreases u.types.len() - i,
{
    if i < 0 || i >= u.types.len() {
        Seq::empty()
    } else {
        (match u.types[i].1 {
            hir::TypeV::Struct(_) => seq![u.types[i].0],
            hir::TypeV::LengthPrefixedString(_) => seq![u.types[i].0],
            _ => Seq::empty(),
        }) + spec_item_ids(u, i + 1)
    }
}

/// The name a generated definition binds.
pub open spec fn item_name(it: ItemV) -> Seq<char> {
    match it {
        ItemV::Struct { name, fields: _ } => name,
        ItemV::StringWrapper { name } => name,
    }
}

/// Each definition is named after its source node; the source ids strictly
/// increase with position, and none of them is a native node.
proof fn lemma_items_names(u: UnitV, i: int)
    requires
        wf_unit(u),
        0 <= i,
    ensures
        ({
            let items = spec_items(u, i);
            let ids = spec_item_ids(u, i);
            &&& items.len() == ids.len()
            &&& forall|k: int|
                0 <= k < items.len() ==> item_name(#[trigger] items[k]) == spec_type_name(
                    u,
                    ids[k],
                )
            &&& forall|k: int|
                0 <= k < ids.len() ==> i + 1 <= (#[trigger] ids[k]).0 <= u.types.len() && !(
                u.types[ids[k].0 - 1].1 is Native)
            &&& forall|a: int, b: int|
                0 <= a < b < ids.len() ==> (#[trigger] ids[a]).0 < (#[trigger] ids[b]).0
        }),
    decreases u.types.len() - i,
{
    if i < u.types.len() {
        lemma_items_names(u, i + 1);
        let items = spec_items(u, i);
        let ids = spec_item_ids(u, i);
        let tail_items = spec_items(u, i + 1);
        let tail_ids = spec_item_ids(u, i + 1);
        let defines = u.types[i].1 is Struct || u.types[i].1 is LengthPrefixedString;
        assert(u.types[i].0.0 == i + 1);
        if defines {
            assert(items.len() == 1 + tail_items.len());
            assert(ids.len() == 1 + tail_ids.len());
            assert(ids[0] == u.types[i].0);
            assert(item_name(items[0]) == spec_type_name(u, u.types[i].0));
            assert(forall|k: int| 1 <= k < items.len() ==> #[trigger] items[k] == tail_items[
                k - 1
            ]);
            assert(forall|k: int| 1 <= k < ids.len() ==> #[trigger] ids[k] == tail_ids[k - 1]);
        } else {
            assert(items =~= tail_items);
            assert(ids =~= tail_ids);
        }
    }
}

/// All identifiers a module binds are pairwise distinct: imports among
/// themselves, definition names among themselves, and imports against
/// definition names.
pub open spec fn identifiers_distinct(m: ModuleV) -> bool {
    &&& forall|a: int, b: int|
        0 <= a < b < m.imports.len() ==> m.imports[a] != m.imports[b]
    &&& forall|a: int, b: int|
        0 <= a < b < m.items.len() ==> item_name(#[trigger] m.items[a]) != item_name(
            #[trigger] m.items[b],
        )
    &&& forall|a: int, b: int|
        0 <= a < m.imports.len() && 0 <= b < m.items.len() ==> #[trigger] m.imports[a]
            != item_name(#[trigger] m.items[b])
}

/// A well-formed unit generates no identifier twice: every import and
/// every definition binds its own name.
pub proof fn lemma_generate_identifiers_distinct(u: UnitV)
    requires
        wf_unit(u),
    ensures
        identifiers_distinct(spec_generate(u)),
{
    let n = u.types.len();
    if n > 0 {
        assert(u.types[n - 1].0.0 == n);
    }
    lemma_imports_deduplicated(u, n);
    lemma_imports_complete(u, n);
    lemma_items_names(u, 0);
    let import_ids = spec_import_ids(u, n);
    let m = spec_generate(u);
    let item_ids = spec_item_ids(u, 0);
    assert forall|a: int, b: int| 0 <= a < b < m.imports.len() implies m.imports[a]
        != m.imports[b] by {
        assert(import_ids[a].0 < import_ids[b].0);
        lemma_type_name_injective(u, import_ids[a], import_ids[b]);
    }
    assert forall|a: int, b: int| 0 <= a < b < m.items.len() implies item_name(
        #[trigger] m.items[a],
    ) != item_name(#[trigger] m.items[b]) by {
        assert(item_ids[a].0 < item_ids[b].0);
        lemma_type_name_injective(u, item_ids[a], item_ids[b]);
    }
    assert forall|a: int, b: int|
        0 <= a < m.imports.len() && 0 <= b < m.items.len() implies #[trigger] m.imports[a]
        != item_name(#[trigger] m.items[b]) by {
        let ia = import_ids[a];
        let ib = item_ids[b];
        assert(import_ids.contains(ia));
        assert(referenced_native(u, ia));
        assert(u.types[ia.0 - 1].1 is Native);
        assert(!(u.types[ib.0 - 1].1 is Native));
        assert(ia != ib);
        lemma_type_name_injective(u, ia, ib);
    }
}

/// Whether the generator covers every node of the unit: callers check
/// this before calling [`generate_rust`].
pub fn is_generatable(unit: &CompilationUnit) -> (r: bool)
    ensures
        r == generatable(view_unit(*unit)),
{
    let ghost u = view_unit(*unit);
    let n = unit.types.len();
    let mut i: usize = 0;
    while i < n
        invariant
            u == view_unit(*unit),
            n == unit.types@.len(),
            i <= n,
            forall|j: int|
                0 <= j < i ==> match (#[trigger] u.types[j]).1 {
                    hir::TypeV::Native => true,
                    hir::TypeV::Struct(_) => true,
                    hir::TypeV::LengthPrefixedString(_) => true,
                    _ => false,
                },
        decreases n - i,
    {
        match &unit.types[i].1 {
            hir::Type::Native => {},
            hir::Type::Struct(_) => {},
            hir::Type::LengthPrefixedString(_) => {},
            _ => {
                proof {
                    assert((match u.types[i as int].1 {
                        hir::TypeV::Native => true,
                        hir::TypeV::Struct(_) => true,
                        hir::TypeV::LengthPrefixedString(_) => true,
                        _ => false,
                    }) == false);
                }
                return false;
            },
        }
        i += 1;
    }
    true
}

/// The length of the longest registered name.
fn widest_key(unit: &CompilationUnit) -> (r: usize)
    ensures
        r == max_key_len(view_unit(*unit).named_types),
{
    let ghost named = view_unit(*unit).named_types;
    let n = unit.named_types.len();
    proof {
        assert(named.subrange(0, 0) =~= Seq::<(Seq<char>, TypeId)>::empty());
    }
    let mut widest: usize = 0;
    let mut i: usize = 0;
    while i < n
        invariant
            named == view_unit(*unit).named_types,
            n == unit.named_types@.len(),
            i <= n,
            widest == max_key_len(named.subrange(0, i as int)),
        decreases n - i,
    {
        let len = unit.named_types[i].0.as_str().unicode_len();
        proof {
            assert(named.subrange(0, i + 1 as int).drop_last() =~= named.subrange(0, i as int));
            assert(named.subrange(0, i + 1 as int).last() == named[i as int]);
        }
        if len > widest {
            widest = len;
        }
        i += 1;
    }
    proof {
        assert(named.subrange(0, n as int) =~= named);
    }
    widest
}

/// The one identifier a node goes by, as an owned string.
fn name_of(unit: &CompilationUnit, id: TypeId) -> (r: String)
    ensures
        r@ == spec_type_name(view_unit(*unit), id),
{
    let ghost u = view_unit(*unit);
    proof {
        lemma_name_index(u.named_types, id);
    }
    let n = unit.named_types.len();
    let mut i: usize = 0;
    while i < n
        invariant
            n == unit.named_types@.len(),
            i <= n,
            forall|j: int| 0 <= j < i ==> unit.named_types@[j].1 != id,
        decreases n - i,
    {
        if unit.named_types[i].1 == id {
            proof {
                lemma_name_index_first(view_unit(*unit).named_types, id, i as int);
            }
            return unit.named_types[i].0.clone();
        }
        i += 1;
    }
    let mut r = String::new();
    r.append("AnonymousType");
    proof {
        reveal_strlit("AnonymousType");
        assert(r@ =~= "AnonymousType"@ + underscores(0));
    }
    let prefix_len = "AnonymousType".unicode_len();
    let widest = widest_key(unit);
    let pad: usize = if widest >= prefix_len {
        widest - prefix_len + 1
    } else {
        0
    };
    proof {
        assert(pad == synth_pad(u));
    }
    let mut j: usize = 0;
    while j < pad
        invariant
            j <= pad,
            r@ == "AnonymousType"@ + underscores(j as nat),
        decreases pad - j,
    {
        r.append("_");
        proof {
            reveal_strlit("_");
            assert(underscores((j + 1) as nat) =~= underscores(j as nat).push('_'));
            assert(r@ =~= "AnonymousType"@ + underscores((j + 1) as nat));
        }
        j += 1;
    }
    let digits = u64_to_string(id.0 as u64);
    r.append(digits.as_str());
    proof {
        assert(r@ =~= synthetic_name(u, id));
    }
    r
}

/// Whether some struct field references `id` and `id` names a native node.
fn is_referenced_native(unit: &CompilationUnit, id: TypeId) -> (r: bool)
    ensures
        r == referenced_native(view_unit(*unit), id),
{
    let ghost u = view_unit(*unit);
    let n = unit.types.len();
    if id.0 == 0 || id.0 as usize > n {
        return false;
    }
    let target = (id.0 - 1) as usize;
    let native = match &unit.types[target].1 {
        hir::Type::Native => true,
        _ => false,
    };
    if !native {
        return false;
    }
    let mut i: usize = 0;
    while i < n
        invariant
            u == view_unit(*unit),
            n == unit.types@.len(),
            i <= n,
            forall|a: int, k: int| a < i ==> !struct_ref(u, id, a, k),
            1 <= id.0 <= n,
            u.types[id.0 - 1].1 is Native,
        decreases n - i,
    {
        match &unit.types[i].1 {
            hir::Type::Struct(s) => {
                let m = s.fields.len();
                let mut k: usize = 0;
                while k < m
                    invariant
                        u == view_unit(*unit),
                        n == unit.types@.len(),
                        i < n,
                        m == s.fields@.len(),
                        k <= m,
                        unit.types@[i as int].1 matches hir::Type::Struct(s2) && s2.fields@
                            == s.fields@,
                        forall|kk: int| 0 <= kk < k ==> s.fields@[kk].ty != id,
                        1 <= id.0 <= n,
                        u.types[id.0 - 1].1 is Native,
                    decreases m - k,
                {
                    if s.fields[k].ty == id {
                        proof {
                            assert(struct_ref(u, id, i as int, k as int));
                        }
                        return true;
                    }
                    k += 1;
                }
                proof {
                    assert forall|kk: int| !struct_ref(u, id, i as int, kk) by {
                        if 0 <= kk < u.types[i as int].1->Struct_0.len() {
                            assert(u.types[i as int].1->Struct_0[kk].ty == s.fields@[kk].ty);
                        }
                    }
                }
            },
            _ => {
                proof {
                    assert forall|kk: int| !struct_ref(u, id, i as int, kk) by {}
                }
            },
        }
        i += 1;
    }
    false
}

/// Generates the module for a unit, exactly as [`spec_generate`]
/// describes: the deduplicated native imports in stable id order, then one
/// definition per non-native node in graph order.
pub fn generate_rust(unit: &CompilationUnit) -> (r: RustModule)
    requires
        wf_unit(view_unit(*unit)),
        generatable(view_unit(*unit)),
    ensures
        view_module(r) == spec_generate(view_unit(*unit)),
        identifiers_distinct(view_module(r)),
{
    let ghost u = view_unit(*unit);
    proof {
        lemma_generate_identifiers_distinct(u);
    }
    let n = unit.types.len();

    let mut imports: Vec<String> = Vec::new();
    let mut m: usize = 0;
    proof {
        assert(view_strings(imports@) =~= spec_import_ids(u, 0).map_values(
            |id: TypeId| spec_type_name(u, id),
        ));
    }
    while m < n
        invariant
            u == view_unit(*unit),
            wf_unit(u),
            n == unit.types@.len(),
            m <= n,
            view_strings(imports@) == spec_import_ids(u, m as nat).map_values(
                |id: TypeId| spec_type_name(u, id),
            ),
        decreases n - m,
    {
        proof {
            assert(u.types[n - 1].0.0 == n);
        }
        let next = TypeId((m + 1) as u32);
        let ghost before = view_strings(imports@);
        if is_referenced_native(unit, next) {
            let name = name_of(unit, next);
            let ghost name_view = name@;
            imports.push(name);
            proof {
                assert(view_strings(imports@) =~= before.push(name_view));
                assert(spec_import_ids(u, (m + 1) as nat) == spec_import_ids(u, m as nat)
                    + seq![next]);
                assert(spec_import_ids(u, (m + 1) as nat).map_values(
                    |id: TypeId| spec_type_name(u, id),
                ) =~= before.push(name_view));
            }
        } else {
            proof {
                assert(spec_import_ids(u, (m + 1) as nat) == spec_import_ids(u, m as nat)
                    + Seq::<TypeId>::empty());
                assert(spec_import_ids(u, (m + 1) as nat) =~= spec_import_ids(u, m as nat));
            }
        }
        m += 1;
    }

    let mut items: Vec<RustItem> = Vec::new();
    let mut i: usize = 0;
    proof {
        assert(view_items(items@) + spec_items(u, 0) =~= spec_items(u, 0));
    }
    while i < n
        invariant
            u == view_unit(*unit),
            wf_unit(u),
            generatable(u),
            n == unit.types@.len(),
            i <= n,
            spec_items(u, 0) == view_items(items@) + spec_items(u, i as int),
        decreases n - i,
    {
        let ghost before_items = view_items(items@);
        let node_id = unit.types[i].0;
        match &unit.types[i].1 {
            hir::Type::Native => {
                proof {
                    assert(Seq::<ItemV>::empty() + spec_items(u, i + 1) =~= spec_items(
                        u,
                        i + 1,
                    ));
                }
            },
            hir::Type::Struct(s) => {
                let fname = name_of(unit, node_id);
                let mut fields: Vec<(String, String)> = Vec::new();
                let m2 = s.fields.len();
                let mut k: usize = 0;
                while k < m2
                    invariant
                        u == view_unit(*unit),
                        n == unit.types@.len(),
                        i < n,
                        m2 == s.fields@.len(),
                        k <= m2,
                        unit.types@[i as int].1 matches hir::Type::Struct(s2) && s2.fields@
                            == s.fields@,
                        fields@.len() == k,
                        forall|kk: int|
                            0 <= kk < k ==> ((#[trigger] fields@[kk]).0@, fields@[kk].1@) == (
                                u.types[i as int].1->Struct_0[kk].name,
                                spec_type_name(u, u.types[i as int].1->Struct_0[kk].ty),
                            ),
                    decreases m2 - k,
                {
                    let fieldname = s.fields[k].name.clone();
                    let tyname = name_of(unit, s.fields[k].ty);
                    fields.push((fieldname, tyname));
                    k += 1;
                }
                let item = RustItem::Struct { name: fname, fields };
                proof {
                    let fs = u.types[i as int].1->Struct_0;
                    assert(view_item(item) == (ItemV::Struct {
                        name: spec_type_name(u, u.types[i as int].0),
                        fields: Seq::new(
                            fs.len(),
                            |kk: int| (fs[kk].name, spec_type_name(u, fs[kk].ty)),
                        ),
                    })) by {
                        assert(Seq::new(
                            item->Struct_fields@.len(),
                            |kk: int| (item->Struct_fields@[kk].0@, item->Struct_fields@[kk].1@),
                        ) =~= Seq::new(
                            fs.len(),
                            |kk: int| (fs[kk].name, spec_type_name(u, fs[kk].ty)),
                        ));
                    }
                }
                items.push(item);
                proof {
                    assert(view_items(items@) =~= before_items.push(view_item(item)));
                    assert(before_items.push(view_item(item)) + spec_items(u, i + 1)
                        =~= before_items + spec_items(u, i as int));
                }
            },
            hir::Type::LengthPrefixedString(_) => {
                let item = RustItem::StringWrapper { name: name_of(unit, node_id) };
                items.push(item);
                proof {
                    assert(view_items(items@) =~= before_items.push(view_item(item)));
                    assert(before_items.push(view_item(item)) + spec_items(u, i + 1)
                        =~= before_items + spec_items(u, i as int));
                }
            },
            _ => {
                proof {
                    assert(false);
                }
            },
        }
        i += 1;
    }
    proof {
        assert(spec_items(u, n as int) =~= Seq::<ItemV>::empty());
        assert(view_items(items@) + Seq::<ItemV>::empty() =~= view_items(items@));
    }
    RustModule { imports, items }
}

/// Picks the formatter's output when the external formatter succeeded, and
/// the unformatted source, byte for byte, when it did not: formatting is
/// cosmetic, never load-bearing.
pub fn formatted_or_original(original: String, formatted: Option<String>) -> (r: String)
    ensures
        match formatted {
            Some(f) => r == f,
            None => r == original,
        },
{
    match formatted {
        Some(f) => f,
        None => original,
    }
}

} // verus!
