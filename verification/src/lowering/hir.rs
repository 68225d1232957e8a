//! The resolved type graph: nodes addressed by `TypeId`, never by name.

use crate::syntax::ast::{view_bitfields, BitFieldV};
use vstd::prelude::*;

verus! {

/// An opaque, densely allocated handle for one node of the type graph.
///
/// The value `0` is a reserved error sentinel: resolution substitutes it for
/// unresolved names so the pass can stay total and keep collecting issues.
#[derive(Debug, Clone, Copy, PartialEq, Eq, Hash, Structural)]
pub struct TypeId(pub u32);

/// The error sentinel.
pub open spec fn error_id() -> TypeId {
    TypeId(0)
}

impl TypeId {
    /// The error sentinel.
    pub fn error() -> (r: TypeId)
        ensures
            r == error_id(),
    {
        TypeId(0)
    }

    /// Whether this id is the error sentinel.
    pub fn is_error(&self) -> (r: bool)
        ensures
            r == (*self == error_id()),
    {
        self.0 == 0
    }

    /// The next id after this one.
    pub(crate) fn next(self) -> (r: TypeId)
        requires
            self.0 < u32::MAX,
        ensures
            r.0 == self.0 + 1,
    {
        TypeId(self.0 + 1)
    }
}

/// The fully resolved, id-addressed type graph of one document, plus its
/// name table.
///
/// The graph is kept in allocation order, and ids are dense: the node at
/// position `i` has id `i + 1` (id `0` being the error sentinel).
#[derive(Debug, PartialEq)]
pub struct CompilationUnit {
    pub types: Vec<(TypeId, Type)>,
    pub named_types: Vec<(String, TypeId)>,
}

/// One resolved node: like the grammar, but children are ids, not names.
#[derive(Debug, PartialEq)]
pub enum Type {
    Native,
    Struct(Struct),
    Enum(Enum),
    LengthPrefixedString(LengthPrefixedString),
    BitFields(BitFields),
    Collection(Collection),
}

/// A record with named members.
#[derive(Debug, PartialEq)]
pub struct Struct {
    pub fields: Vec<Field>,
}

/// A [`Struct`] field.
#[derive(Debug, PartialEq)]
pub struct Field {
    pub name: String,
    pub ty: TypeId,
}

/// A discriminated union; not produced by the current lowering.
#[derive(Debug, PartialEq)]
pub struct Enum {
    pub compare_to: String,
    pub variants: Vec<Variant>,
}

/// An [`Enum`] variant. No variant shape is designed yet; the one form
/// here only keeps the type inhabited, since nothing constructs it.
#[derive(Debug, PartialEq)]
pub enum Variant {
    Unspecified,
}

/// Bit-level fields, copied verbatim from the grammar.
#[derive(Debug, PartialEq)]
pub struct BitFields {
    pub fields: Vec<crate::syntax::BitField>,
}

/// A string prefixed with its length in another type's encoding.
#[derive(Debug, PartialEq)]
pub struct LengthPrefixedString {
    pub count_type: TypeId,
}

/// A homogeneous sequence; not produced by the current lowering.
#[derive(Debug, PartialEq)]
pub struct Collection {
    pub item_type: TypeId,
}

/// Mirror of [`Type`].
pub enum TypeV {
    Native,
    Struct(Seq<FieldV>),
    Enum(EnumV),
    LengthPrefixedString(TypeId),
    BitFields(Seq<BitFieldV>),
    Collection(TypeId),
}

/// Mirror of [`Field`].
pub struct FieldV {
    pub name: Seq<char>,
    pub ty: TypeId,
}

/// Mirror of [`Enum`].
pub struct EnumV {
    pub compare_to: Seq<char>,
    pub variants: Seq<Variant>,
}

/// The mirror of a resolved field list.
pub open spec fn view_hfields(fs: Seq<Field>) -> Seq<FieldV> {
    Seq::new(fs.len(), |i: int| FieldV { name: fs[i].name@, ty: fs[i].ty })
}

/// The mirror of one resolved node.
pub open spec fn view_hir_type(t: Type) -> TypeV {
    match t {
        Type::Native => TypeV::Native,
        Type::Struct(s) => TypeV::Struct(view_hfields(s.fields@)),
        Type::Enum(e) => TypeV::Enum(EnumV { compare_to: e.compare_to@, variants: e.variants@ }),
        Type::LengthPrefixedString(s) => TypeV::LengthPrefixedString(s.count_type),
        Type::BitFields(b) => TypeV::BitFields(view_bitfields(b.fields@)),
        Type::Collection(c) => TypeV::Collection(c.item_type),
    }
}

/// The mirror of the graph's node list.
pub open spec fn view_nodes(ts: Seq<(TypeId, Type)>) -> Seq<(TypeId, TypeV)> {
    Seq::new(ts.len(), |i: int| (ts[i].0, view_hir_type(ts[i].1)))
}

/// Mirror of [`CompilationUnit`].
pub struct UnitV {
    pub types: Seq<(TypeId, TypeV)>,
    pub named_types: Seq<(Seq<char>, TypeId)>,
}

/// The mirror of a whole compilation unit.
pub open spec fn view_unit(u: CompilationUnit) -> UnitV {
    UnitV {
        types: view_nodes(u.types@),
        named_types: crate::table::str_entries(u.named_types@),
    }
}

/// Whether every id one node mentions lands on a real node of an `n`-node
/// graph: neither the error sentinel nor out of range.
pub open spec fn unit_node_ok(t: TypeV, n: nat) -> bool {
    match t {
        TypeV::Struct(fs) => forall|k: int|
            0 <= k < fs.len() ==> 1 <= (#[trigger] fs[k]).ty.0 <= n,
        TypeV::LengthPrefixedString(id) => 1 <= id.0 <= n,
        TypeV::Collection(id) => 1 <= id.0 <= n,
        _ => true,
    }
}

/// A finished unit is well formed: ids are dense (position `i` holds id
/// `i + 1`), registered names are pairwise distinct, every name resolves to
/// a real node, and no node dangles — there is no error sentinel anywhere
/// in a unit that lowering hands out.
pub open spec fn wf_unit(u: UnitV) -> bool {
    &&& forall|i: int| 0 <= i < u.types.len() ==> (#[trigger] u.types[i]).0.0 == i + 1
    &&& forall|j: int|
        0 <= j < u.named_types.len() ==> 1 <= (#[trigger] u.named_types[j]).1.0 <= u.types.len()
    &&& forall|a: int, b: int|
        0 <= a < b < u.named_types.len() ==> (#[trigger] u.named_types[a]).0 != (
        #[trigger] u.named_types[b]).0
    &&& forall|i: int|
        0 <= i < u.types.len() ==> unit_node_ok((#[trigger] u.types[i]).1, u.types.len())
}

} // verus!
