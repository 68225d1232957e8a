//! The grammar's data model, plus its mathematical mirror.
//!
//! Every exec type here has a spec-level mirror (`TypeV`, `FieldV`, ...) in
//! which strings are character sequences and vectors are sequences; the
//! parser's contracts are stated over those mirrors.

use vstd::prelude::*;

verus! {

/// A parsed protocol document: an ordered table from type name to grammar
/// type. Order is significant; it is the only order lowering has to work
/// with.
#[derive(Debug, PartialEq)]
pub struct Protocol {
    pub types: Vec<(String, Type)>,
}

/// One grammar type.
#[derive(Debug, PartialEq)]
pub enum Type {
    /// An externally supplied primitive, opaque to this compiler.
    Native,
    /// A reference to another entry of the document, resolved during
    /// lowering.
    Named(String),
    Container(Container),
    Switch(Switch),
    BitFields(BitFields),
    /// A string whose length is prefixed using another type's encoding.
    LengthPrefixedString { count_type: Box<Type> },
    Mapper(Mapper),
}

/// An ordered sequence of fields.
#[derive(Debug, PartialEq)]
pub struct Container {
    pub fields: Vec<Field>,
}

/// A container member; a field without a name is an anonymous (flattened)
/// member.
#[derive(Debug, PartialEq)]
pub struct Field {
    pub name: Option<String>,
    pub ty: Type,
}

impl Field {
    /// A named field.
    pub fn new(name: &str, ty: Type) -> (r: Field)
        ensures
            view_field(r) == (FieldV { name: Some(name@), ty: view_type(ty) }),
    {
        Field { name: Some(name.to_owned()), ty }
    }
}

/// A discriminated union keyed by a sibling field's runtime value.
#[derive(Debug, PartialEq)]
pub struct Switch {
    pub compare_to: String,
    pub variants: Vec<(i64, Type)>,
    pub default: Option<Box<Type>>,
}

/// An ordered sequence of bit-level fields.
#[derive(Debug, Clone, PartialEq)]
pub struct BitFields {
    pub fields: Vec<BitField>,
}

/// One bit-level field: so many bits, signed or not.
#[derive(Debug, PartialEq)]
pub struct BitField {
    pub name: String,
    pub size: usize,
    pub signed: bool,
}

impl Clone for BitField {
    fn clone(&self) -> (r: Self)
        ensures
            r == *self,
    {
        BitField { name: self.name.clone(), size: self.size, signed: self.signed }
    }
}

/// A bidirectional value/name table. Recognised by the parser; its table is
/// not yet modelled, and lowering does not handle it yet.
#[derive(Debug, Clone, PartialEq)]
pub struct Mapper;

/// Mirror of [`Type`].
pub enum TypeV {
    Native,
    Named(Seq<char>),
    Container(Seq<FieldV>),
    Switch(SwitchV),
    BitFields(Seq<BitFieldV>),
    LengthPrefixedString(Box<TypeV>),
    Mapper,
}

/// Mirror of [`Field`].
pub struct FieldV {
    pub name: Option<Seq<char>>,
    pub ty: TypeV,
}

/// Mirror of [`Switch`].
pub struct SwitchV {
    pub compare_to: Seq<char>,
    pub variants: Seq<(i64, TypeV)>,
    pub default: Option<Box<TypeV>>,
}

/// Mirror of [`BitField`].
pub struct BitFieldV {
    pub name: Seq<char>,
    pub size: usize,
    pub signed: bool,
}

/// Mirror of [`Protocol`]: the ordered name-to-type table.
pub type ProtocolV = Seq<(Seq<char>, TypeV)>;

/// The mirror of an exec grammar type.
pub open spec fn view_type(t: Type) -> TypeV
    decreases t,
{
    match t {
        Type::Native => TypeV::Native,
        Type::Named(s) => TypeV::Named(s@),
        Type::Container(c) => TypeV::Container(view_fields(c.fields@)),
        Type::Switch(s) => TypeV::Switch(view_switch(s)),
        Type::BitFields(b) => TypeV::BitFields(view_bitfields(b.fields@)),
        Type::LengthPrefixedString { count_type } => TypeV::LengthPrefixedString(
            Box::new(view_type(*count_type)),
        ),
        Type::Mapper(_) => TypeV::Mapper,
    }
}

/// The mirror of a switch.
pub open spec fn view_switch(s: Switch) -> SwitchV
    decreases s,
{
    SwitchV {
        compare_to: s.compare_to@,
        variants: view_variants(s.variants@),
        default: match s.default {
            Option::None => None,
            Option::Some(d) => Some(Box::new(view_type(*d))),
        },
    }
}

/// The mirror of a field sequence, element by element.
pub open spec fn view_fields(fs: Seq<Field>) -> Seq<FieldV>
    decreases fs,
{
    if fs.len() == 0 {
        Seq::empty()
    } else {
        seq![view_field(fs[0])] + view_fields(fs.subrange(1, fs.len() as int))
    }
}

/// The mirror of one field.
pub open spec fn view_field(f: Field) -> FieldV
    decreases f,
{
    FieldV {
        name: match f.name {
            Option::None => None,
            Option::Some(n) => Some(n@),
        },
        ty: view_type(f.ty),
    }
}

/// The mirror of a switch's variant table, element by element.
pub open spec fn view_variants(vs: Seq<(i64, Type)>) -> Seq<(i64, TypeV)>
    decreases vs,
{
    if vs.len() == 0 {
        Seq::empty()
    } else {
        seq![(vs[0].0, view_type(vs[0].1))] + view_variants(vs.subrange(1, vs.len() as int))
    }
}

/// The mirror of one bit-level field.
pub open spec fn view_bitfield(f: BitField) -> BitFieldV {
    BitFieldV { name: f.name@, size: f.size, signed: f.signed }
}

/// The mirror of a bit-level field sequence.
pub open spec fn view_bitfields(fs: Seq<BitField>) -> Seq<BitFieldV> {
    Seq::new(fs.len(), |i: int| view_bitfield(fs[i]))
}

/// The mirror of a protocol's entry list.
pub open spec fn prot_entries(s: Seq<(String, Type)>) -> ProtocolV {
    Seq::new(s.len(), |i: int| (s[i].0@, view_type(s[i].1)))
}

/// The mirror of a whole protocol table.
pub open spec fn view_protocol(p: Protocol) -> ProtocolV {
    prot_entries(p.types@)
}

/// `view_fields` maps the sequence element by element.
pub proof fn lemma_view_fields(fs: Seq<Field>)
    ensures
        view_fields(fs).len() == fs.len(),
        forall|i: int| 0 <= i < fs.len() ==> view_fields(fs)[i] == view_field(fs[i]),
    decreases fs.len(),
{
    if fs.len() > 0 {
        lemma_view_fields(fs.subrange(1, fs.len() as int));
    }
}

/// `view_variants` maps the sequence element by element.
pub proof fn lemma_view_variants(vs: Seq<(i64, Type)>)
    ensures
        view_variants(vs).len() == vs.len(),
        forall|i: int|
            0 <= i < vs.len() ==> view_variants(vs)[i] == (vs[i].0, view_type(vs[i].1)),
    decreases vs.len(),
{
    if vs.len() > 0 {
        lemma_view_variants(vs.subrange(1, vs.len() as int));
    }
}

} // verus!
