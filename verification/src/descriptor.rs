//! Type descriptors: the structural description of a composite type that the
//! layout engine and the codec consume.
//!
//! A descriptor is either a scalar leaf, an ordered list of named fields, or
//! an enum: a tag representation width plus an ordered list of variants, each
//! with an optional explicit discriminant and at most one payload type.
//! Field and variant order is significant: it fixes the byte layout.

use vstd::prelude::*;
use crate::bytes::pow256;

verus! {

/// A scalar leaf type with a fixed byte width. The two IEEE-754 widths are
/// carried through the codec as raw bit patterns, so their wire format is
/// that of the unsigned integer of the same width.
#[derive(Debug, Clone, Copy, PartialEq, Eq, Structural)]
pub enum PrimType {
    U8,
    I8,
    U16,
    I16,
    U32,
    I32,
    U64,
    I64,
    F32,
    F64,
    Bool,
}

impl PrimType {
    /// The fixed number of bytes a value of this scalar occupies.
    pub open spec fn spec_size(self) -> nat {
        match self {
            PrimType::U8 => 1,
            PrimType::I8 => 1,
            PrimType::U16 => 2,
            PrimType::I16 => 2,
            PrimType::U32 => 4,
            PrimType::I32 => 4,
            PrimType::U64 => 8,
            PrimType::I64 => 8,
            PrimType::F32 => 4,
            PrimType::F64 => 8,
            PrimType::Bool => 1,
        }
    }

    pub fn size(&self) -> (n: usize)
        ensures
            n == self.spec_size(),
    {
        match self {
            PrimType::U8 => 1,
            PrimType::I8 => 1,
            PrimType::U16 => 2,
            PrimType::I16 => 2,
            PrimType::U32 => 4,
            PrimType::I32 => 4,
            PrimType::U64 => 8,
            PrimType::I64 => 8,
            PrimType::F32 => 4,
            PrimType::F64 => 8,
            PrimType::Bool => 1,
        }
    }
}

/// The byte width of an enum's tag: 1, 2, 4 or 8 bytes, unsigned.
#[derive(Debug, Clone, Copy, PartialEq, Eq, Structural)]
pub enum ReprWidth {
    W1,
    W2,
    W4,
    W8,
}

impl ReprWidth {
    pub open spec fn spec_size(self) -> nat {
        match self {
            ReprWidth::W1 => 1,
            ReprWidth::W2 => 2,
            ReprWidth::W4 => 4,
            ReprWidth::W8 => 8,
        }
    }

    pub fn size(&self) -> (n: usize)
        ensures
            n == self.spec_size(),
    {
        match self {
            ReprWidth::W1 => 1,
            ReprWidth::W2 => 2,
            ReprWidth::W4 => 4,
            ReprWidth::W8 => 8,
        }
    }
}

/// One named field of a struct descriptor.
#[derive(Debug, PartialEq, Eq)]
pub struct FieldDesc {
    pub name: String,
    pub ty: TypeDesc,
}

/// One variant of an enum descriptor: an identifier, an optional explicit
/// discriminant, and an optional single payload type.
#[derive(Debug, PartialEq, Eq)]
pub struct VariantDesc {
    pub name: String,
    pub discriminant: Option<u64>,
    pub payload: Option<TypeDesc>,
}

/// An enum descriptor: the tag's representation width and the variants in
/// declaration order.
#[derive(Debug, PartialEq, Eq)]
pub struct EnumDesc {
    pub repr: ReprWidth,
    pub variants: Vec<VariantDesc>,
}

/// The structural description of a type, as the codec consumes it.
#[derive(Debug, PartialEq, Eq)]
pub enum TypeDesc {
    Prim(PrimType),
    Struct(Vec<FieldDesc>),
    Enum(EnumDesc),
}

/// What can go wrong while computing a layout or while decoding.
#[derive(Debug, Clone, Copy, PartialEq, Eq, Structural)]
pub enum CodecError {
    /// The descriptor (or the value handed in with it) violates a structural
    /// constraint, e.g. its total byte size cannot be represented.
    MalformedDescriptor,
    /// A boolean byte was neither 0 nor 1.
    InvalidScalar,
    /// A decoded enum tag matches no variant's derived tag.
    UnknownTag,
}

/// The total byte width of a value of the described type.
pub open spec fn size_of(t: TypeDesc) -> nat
    decreases t, 1int, 0int,
{
    match t {
        TypeDesc::Prim(p) => p.spec_size(),
        TypeDesc::Struct(_) => struct_size_from(t, 0),
        TypeDesc::Enum(e) => e.repr.spec_size() + max_payload_from(t, 0),
    }
}

/// The summed widths of the struct fields of `t` from index `i` on.
pub open spec fn struct_size_from(t: TypeDesc, i: int) -> nat
    decreases t, 0int, (if t is Struct { t->Struct_0@.len() - i } else { 0 }),
{
    if t is Struct {
        let fields = t->Struct_0@;
        if i < 0 || i >= fields.len() {
            0
        } else {
            size_of(fields[i].ty) + struct_size_from(t, i + 1)
        }
    } else {
        0
    }
}

/// The widest payload among the variants of `t` from index `i` on; 0 when
/// none of them carries a payload.
pub open spec fn max_payload_from(t: TypeDesc, i: int) -> nat
    decreases t, 0int, (if t is Enum { t->Enum_0.variants@.len() - i } else { 0 }),
{
    if t is Enum {
        let vs = t->Enum_0.variants@;
        if i < 0 || i >= vs.len() {
            0
        } else {
            let here = match vs[i].payload {
                Some(p) => size_of(p),
                None => 0,
            };
            let rest = max_payload_from(t, i + 1);
            if here >= rest {
                here
            } else {
                rest
            }
        }
    } else {
        0
    }
}

/// The byte width of the payload region a variant's payload occupies:
/// its own width, or 0 when it has none.
pub open spec fn payload_size(v: VariantDesc) -> nat {
    match v.payload {
        Some(p) => size_of(p),
        None => 0,
    }
}

/// The tags of the variants from index `i` on, given the running derivation
/// state: `anchor` is the last explicit discriminant seen (initially 0) and
/// `counter` the number of variants assigned since it was set.
///
/// A variant with an explicit discriminant takes it as its tag and resets the
/// state; one without takes `anchor + counter`. Either way the counter then
/// advances.
pub open spec fn tags_from(vs: Seq<VariantDesc>, anchor: nat, counter: nat, i: int) -> Seq<nat>
    decreases vs.len() - i,
{
    if i < 0 || i >= vs.len() {
        Seq::empty()
    } else {
        match vs[i].discriminant {
            Some(d) => seq![d as nat] + tags_from(vs, d as nat, 1, i + 1),
            None => seq![anchor + counter] + tags_from(vs, anchor, counter + 1, i + 1),
        }
    }
}

/// The tag assigned to each variant, in declaration order.
pub open spec fn derived_tags(vs: Seq<VariantDesc>) -> Seq<nat> {
    tags_from(vs, 0, 0, 0)
}

pub proof fn lemma_tags_from_len(vs: Seq<VariantDesc>, anchor: nat, counter: nat, i: int)
    requires
        0 <= i <= vs.len(),
    ensures
        tags_from(vs, anchor, counter, i).len() == vs.len() - i,
    decreases vs.len() - i,
{
    if i < vs.len() {
        match vs[i].discriminant {
            Some(d) => lemma_tags_from_len(vs, d as nat, 1, i + 1),
            None => lemma_tags_from_len(vs, anchor, counter + 1, i + 1),
        }
    }
}

pub proof fn lemma_derived_tags_len(vs: Seq<VariantDesc>)
    ensures
        derived_tags(vs).len() == vs.len(),
{
    lemma_tags_from_len(vs, 0, 0, 0);
}

/// A descriptor is well formed when every nested descriptor is, every derived
/// enum tag fits its representation width, and no two variants of one enum
/// share a tag. Duplicate tags would decode ambiguously (the first declared
/// match would win), so callers must avoid them; the round-trip guarantee
/// holds only for well-formed descriptors.
pub open spec fn wf_desc(t: TypeDesc) -> bool
    decreases t, 1int, 0int,
{
    match t {
        TypeDesc::Prim(_) => true,
        TypeDesc::Struct(fields) => forall|i: int|
            0 <= i < fields@.len() ==> wf_field(#[trigger] fields@[i]),
        TypeDesc::Enum(e) => {
            let tags = derived_tags(e.variants@);
            &&& forall|i: int| 0 <= i < e.variants@.len() ==> wf_variant(#[trigger] e.variants@[i])
            &&& forall|i: int|
                0 <= i < tags.len() ==> #[trigger] tags[i] < pow256(e.repr.spec_size())
            &&& forall|i: int, j: int|
                0 <= i < j < tags.len() ==> #[trigger] tags[i] != #[trigger] tags[j]
        },
    }
}

/// A struct field is well formed when its type is.
pub open spec fn wf_field(f: FieldDesc) -> bool
    decreases f, 0int, 0int,
{
    wf_desc(f.ty)
}

/// A variant is well formed when its payload type, if any, is.
pub open spec fn wf_variant(v: VariantDesc) -> bool
    decreases v, 0int, 0int,
{
    match v.payload {
        Some(p) => wf_desc(p),
        None => true,
    }
}

} // verus!
