//! The codec protocol: encoding a value into the fixed-length byte string
//! its descriptor assigns, and decoding it back with tag validation.
//!
//! The contracts speak of [`ValueSpec`], the mathematical model of a
//! [`Value`]: the model of a struct value is the sequence of its field
//! models, and the model of an enum value carries the variant index and a
//! payload sequence of at most one element.

use vstd::prelude::*;
use crate::bytes::{
    be_bytes, be_bytes_exec, be_val, be_val_exec, lemma_be_bytes_len, lemma_be_bytes_mod,
    lemma_be_roundtrip, lemma_be_val_bound,
    lemma_pow256_adds, lemma_pow256_pos, pow256,
};
use crate::descriptor::{
    CodecError, PrimType, TypeDesc, derived_tags, lemma_derived_tags_len, max_payload_from,
    size_of, struct_size_from, tags_from, wf_desc,
};
use crate::layout::{
    lemma_max_ge_payload, lemma_offset_plus_suffix, lemma_suffix_ge_field, struct_offset,
    tag_values, total_size,
};

verus! {

/// An in-memory value of a described type. Scalars hold their machine value
/// (the IEEE-754 widths hold their raw bit pattern); a struct holds its field
/// values in declaration order; an enum holds the active variant's index and
/// its payload, if that variant carries one.
#[derive(Debug, PartialEq, Eq)]
pub enum Value {
    U8(u8),
    I8(i8),
    U16(u16),
    I16(i16),
    U32(u32),
    I32(i32),
    U64(u64),
    I64(i64),
    F32Bits(u32),
    F64Bits(u64),
    Bool(bool),
    Struct(Vec<Value>),
    Enum(EnumValue),
}

/// An enum value: which variant is active, and its payload if it has one.
#[derive(Debug, PartialEq, Eq)]
pub struct EnumValue {
    pub variant: usize,
    pub payload: Option<Box<Value>>,
}

/// The mathematical model of a [`Value`]. A struct's fields are a `Seq`; an
/// enum's payload is a `Seq` of at most one element (empty when the variant
/// carries none).
#[verifier::ext_equal]
pub enum ValueSpec {
    U8(u8),
    I8(i8),
    U16(u16),
    I16(i16),
    U32(u32),
    I32(i32),
    U64(u64),
    I64(i64),
    F32Bits(u32),
    F64Bits(u64),
    Bool(bool),
    Struct(Seq<ValueSpec>),
    Enum { variant: int, payload: Seq<ValueSpec> },
}

impl Value {
    /// The model of this value.
    pub open spec fn deep(self) -> ValueSpec
        decreases self, 1int,
    {
        match self {
            Value::U8(x) => ValueSpec::U8(x),
            Value::I8(x) => ValueSpec::I8(x),
            Value::U16(x) => ValueSpec::U16(x),
            Value::I16(x) => ValueSpec::I16(x),
            Value::U32(x) => ValueSpec::U32(x),
            Value::I32(x) => ValueSpec::I32(x),
            Value::U64(x) => ValueSpec::U64(x),
            Value::I64(x) => ValueSpec::I64(x),
            Value::F32Bits(x) => ValueSpec::F32Bits(x),
            Value::F64Bits(x) => ValueSpec::F64Bits(x),
            Value::Bool(b) => ValueSpec::Bool(b),
            Value::Struct(vs) => ValueSpec::Struct(deep_seq(vs@)),
            Value::Enum(ev) => ValueSpec::Enum {
                variant: ev.variant as int,
                payload: match ev.payload {
                    Some(b) => seq![(*b).deep()],
                    None => Seq::empty(),
                },
            },
        }
    }
}

/// The models of a sequence of values, elementwise.
pub open spec fn deep_seq(vs: Seq<Value>) -> Seq<ValueSpec>
    decreases vs, 0int,
{
    Seq::new(
        vs.len(),
        |i: int|
            if 0 <= i < vs.len() {
                vs[i].deep()
            } else {
                ValueSpec::Bool(false)
            },
    )
}

/// Whether a value is constructible from (conforms to) a descriptor: scalars
/// match their leaf type, a struct value has one matching field value per
/// field, and an enum value names a declared variant and carries a matching
/// payload exactly when that variant does.
pub open spec fn value_matches(v: ValueSpec, t: TypeDesc) -> bool
    decreases v,
{
    match (v, t) {
        (ValueSpec::U8(_), TypeDesc::Prim(PrimType::U8)) => true,
        (ValueSpec::I8(_), TypeDesc::Prim(PrimType::I8)) => true,
        (ValueSpec::U16(_), TypeDesc::Prim(PrimType::U16)) => true,
        (ValueSpec::I16(_), TypeDesc::Prim(PrimType::I16)) => true,
        (ValueSpec::U32(_), TypeDesc::Prim(PrimType::U32)) => true,
        (ValueSpec::I32(_), TypeDesc::Prim(PrimType::I32)) => true,
        (ValueSpec::U64(_), TypeDesc::Prim(PrimType::U64)) => true,
        (ValueSpec::I64(_), TypeDesc::Prim(PrimType::I64)) => true,
        (ValueSpec::F32Bits(_), TypeDesc::Prim(PrimType::F32)) => true,
        (ValueSpec::F64Bits(_), TypeDesc::Prim(PrimType::F64)) => true,
        (ValueSpec::Bool(_), TypeDesc::Prim(PrimType::Bool)) => true,
        (ValueSpec::Struct(vs), TypeDesc::Struct(fs)) => vs.len() == fs@.len() && (forall|i: int|
            0 <= i < vs.len() ==> value_matches(#[trigger] vs[i], fs@[i].ty)),
        (ValueSpec::Enum { variant, payload }, TypeDesc::Enum(e)) => {
            &&& 0 <= variant < e.variants@.len()
            &&& match e.variants@[variant].payload {
                Some(pt) => payload.len() == 1 && value_matches(payload[0], pt),
                None => payload.len() == 0,
            }
        },
        _ => false,
    }
}

/// `n` zero bytes: the fill for the unused tail of a payload region.
pub open spec fn zeros(n: nat) -> Seq<u8> {
    Seq::new(n, |i: int| 0u8)
}

/// The bytes a value encodes to under its descriptor.
///
/// A scalar is written big-endian (booleans as one byte, 0 or 1); a struct is
/// the concatenation of its encoded fields in declaration order, no padding;
/// an enum is its variant's derived tag, truncated or widened to the tag
/// width, followed by the shared payload region: the encoded payload, then
/// zeroes up to the widest payload's width.
pub open spec fn spec_encode(v: ValueSpec, t: TypeDesc) -> Seq<u8>
    decreases v, 1int, 0int,
{
    match v {
        ValueSpec::U8(x) => be_bytes(x as nat, 1),
        ValueSpec::I8(x) => be_bytes((x as u8) as nat, 1),
        ValueSpec::U16(x) => be_bytes(x as nat, 2),
        ValueSpec::I16(x) => be_bytes((x as u16) as nat, 2),
        ValueSpec::U32(x) => be_bytes(x as nat, 4),
        ValueSpec::I32(x) => be_bytes((x as u32) as nat, 4),
        ValueSpec::U64(x) => be_bytes(x as nat, 8),
        ValueSpec::I64(x) => be_bytes((x as u64) as nat, 8),
        ValueSpec::F32Bits(x) => be_bytes(x as nat, 4),
        ValueSpec::F64Bits(x) => be_bytes(x as nat, 8),
        ValueSpec::Bool(b) => seq![if b { 1u8 } else { 0u8 }],
        ValueSpec::Struct(_) => encode_fields_from(v, t, 0),
        ValueSpec::Enum { variant, payload } => {
            if t is Enum {
                let e = t->Enum_0;
                let w = e.repr.spec_size();
                let tag = if 0 <= variant < e.variants@.len() {
                    derived_tags(e.variants@)[variant]
                } else {
                    0
                };
                let pbytes = if payload.len() == 1 && 0 <= variant < e.variants@.len()
                    && e.variants@[variant].payload is Some {
                    spec_encode(payload[0], e.variants@[variant].payload->0)
                } else {
                    Seq::empty()
                };
                let region = max_payload_from(t, 0);
                let pad = if pbytes.len() <= region {
                    (region - pbytes.len()) as nat
                } else {
                    0
                };
                be_bytes(tag, w) + pbytes + zeros(pad)
            } else {
                Seq::empty()
            }
        },
    }
}

/// The concatenated encodings of a struct value's fields from index `i` on.
pub open spec fn encode_fields_from(v: ValueSpec, t: TypeDesc, i: int) -> Seq<u8>
    decreases v, 0int, (if v is Struct { v->Struct_0.len() - i } else { 0 }),
{
    if v is Struct && t is Struct {
        let vs = v->Struct_0;
        let fs = t->Struct_0@;
        if i < 0 || i >= vs.len() || vs.len() != fs.len() {
            Seq::empty()
        } else {
            spec_encode(vs[i], fs[i].ty) + encode_fields_from(v, t, i + 1)
        }
    } else {
        Seq::empty()
    }
}

/// A matching value encodes to exactly the byte width its descriptor's
/// layout assigns.
pub proof fn lemma_encode_len(v: ValueSpec, t: TypeDesc)
    requires
        value_matches(v, t),
    ensures
        spec_encode(v, t).len() == size_of(t),
    decreases v, 1int, 0int,
{
    match v {
        ValueSpec::Struct(_) => {
            lemma_encode_fields_len(v, t, 0);
        },
        ValueSpec::Enum { variant, payload } => {
            let e = t->Enum_0;
            let w = e.repr.spec_size();
            let region = max_payload_from(t, 0);
            lemma_be_bytes_len(
                if 0 <= variant < e.variants@.len() {
                    derived_tags(e.variants@)[variant]
                } else {
                    0
                },
                w,
            );
            match e.variants@[variant].payload {
                Some(pt) => {
                    lemma_encode_len(payload[0], pt);
                    lemma_max_ge_payload(t, 0, variant);
                },
                None => {
                    lemma_max_ge_payload(t, 0, variant);
                },
            }
        },
        _ => {
            assert forall|x: nat, n: nat| #[trigger] be_bytes(x, n).len() == n by {
                lemma_be_bytes_len(x, n);
            };
        },
    }
}

/// The concatenated field encodings from index `i` on have exactly the
/// summed width of those fields.
pub proof fn lemma_encode_fields_len(v: ValueSpec, t: TypeDesc, i: int)
    requires
        value_matches(v, t),
        v is Struct,
        0 <= i <= v->Struct_0.len(),
    ensures
        encode_fields_from(v, t, i).len() == struct_size_from(t, i),
    decreases v, 0int, v->Struct_0.len() - i,
{
    if i < v->Struct_0.len() {
        lemma_encode_len(v->Struct_0[i], t->Struct_0@[i].ty);
        lemma_encode_fields_len(v, t, i + 1);
    }
}

/// Decodes a scalar from exactly its own bytes. Every byte pattern is a valid
/// integer or bit pattern; only a boolean byte outside {0, 1} is rejected.
pub open spec fn prim_decode(data: Seq<u8>, p: PrimType) -> Result<ValueSpec, CodecError> {
    match p {
        PrimType::U8 => Ok(ValueSpec::U8(be_val(data) as u8)),
        PrimType::I8 => Ok(ValueSpec::I8(be_val(data) as u8 as i8)),
        PrimType::U16 => Ok(ValueSpec::U16(be_val(data) as u16)),
        PrimType::I16 => Ok(ValueSpec::I16(be_val(data) as u16 as i16)),
        PrimType::U32 => Ok(ValueSpec::U32(be_val(data) as u32)),
        PrimType::I32 => Ok(ValueSpec::I32(be_val(data) as u32 as i32)),
        PrimType::U64 => Ok(ValueSpec::U64(be_val(data) as u64)),
        PrimType::I64 => Ok(ValueSpec::I64(be_val(data) as u64 as i64)),
        PrimType::F32 => Ok(ValueSpec::F32Bits(be_val(data) as u32)),
        PrimType::F64 => Ok(ValueSpec::F64Bits(be_val(data) as u64)),
        PrimType::Bool => {
            if data.len() == 1 && data[0] == 0 {
                Ok(ValueSpec::Bool(false))
            } else if data.len() == 1 && data[0] == 1 {
                Ok(ValueSpec::Bool(true))
            } else {
                Err(CodecError::InvalidScalar)
            }
        },
    }
}

/// The first index at or after `i` whose tag equals `tagv`, scanning in
/// declaration order; `None` when no tag matches.
pub open spec fn find_tag_from(tags: Seq<nat>, tagv: nat, i: int) -> Option<int>
    decreases tags.len() - i,
{
    if i < 0 || i >= tags.len() {
        None
    } else if tags[i] == tagv {
        Some(i)
    } else {
        find_tag_from(tags, tagv, i + 1)
    }
}

/// The value a byte string of the descriptor's exact width decodes to, or the
/// first error met, scanning fields (and the tag before a payload) in order.
pub open spec fn spec_decode(data: Seq<u8>, t: TypeDesc) -> Result<ValueSpec, CodecError>
    decreases t, 1int, 0int,
{
    match t {
        TypeDesc::Prim(p) => prim_decode(data, p),
        TypeDesc::Struct(_) => match decode_fields_from(data, t, 0, 0) {
            Ok(vs) => Ok(ValueSpec::Struct(vs)),
            Err(e) => Err(e),
        },
        TypeDesc::Enum(e) => {
            let w = e.repr.spec_size();
            let tagv = be_val(data.take(w as int));
            match find_tag_from(derived_tags(e.variants@), tagv, 0) {
                None => Err(CodecError::UnknownTag),
                Some(k) => {
                    if 0 <= k < e.variants@.len() {
                        match e.variants@[k].payload {
                            None => Ok(ValueSpec::Enum { variant: k, payload: Seq::empty() }),
                            Some(pt) => match spec_decode(
                                data.subrange(w as int, w as int + size_of(pt) as int),
                                pt,
                            ) {
                                Ok(pv) => Ok(ValueSpec::Enum { variant: k, payload: seq![pv] }),
                                Err(err) => Err(err),
                            },
                        }
                    } else {
                        Err(CodecError::UnknownTag)
                    }
                },
            }
        },
    }
}

/// Decodes the fields of a struct descriptor from index `i` on, field `i`
/// starting at byte `off`; fails fast with the first field's error.
pub open spec fn decode_fields_from(data: Seq<u8>, t: TypeDesc, i: int, off: int) -> Result<
    Seq<ValueSpec>,
    CodecError,
>
    decreases t, 0int, (if t is Struct { t->Struct_0@.len() - i } else { 0 }),
{
    if t is Struct {
        let fs = t->Struct_0@;
        if i < 0 || i >= fs.len() {
            Ok(Seq::empty())
        } else {
            let sz = size_of(fs[i].ty);
            match spec_decode(data.subrange(off, off + sz), fs[i].ty) {
                Err(e) => Err(e),
                Ok(v) => match decode_fields_from(data, t, i + 1, off + sz) {
                    Ok(rest) => Ok(seq![v] + rest),
                    Err(e) => Err(e),
                },
            }
        }
    } else {
        Ok(Seq::empty())
    }
}

/// The scan finds index `k` when `k` holds the tag and no earlier index does.
pub proof fn lemma_find_tag_finds(tags: Seq<nat>, tagv: nat, i: int, k: int)
    requires
        0 <= i <= k < tags.len(),
        tags[k] == tagv,
        forall|j: int| i <= j < k ==> #[trigger] tags[j] != tagv,
    ensures
        find_tag_from(tags, tagv, i) == Some(k),
    decreases k - i,
{
    if i < k {
        lemma_find_tag_finds(tags, tagv, i + 1, k);
    }
}

/// The scan finds nothing when no tag matches.
pub proof fn lemma_find_tag_none(tags: Seq<nat>, tagv: nat, i: int)
    requires
        0 <= i,
        forall|j: int| i <= j < tags.len() ==> #[trigger] tags[j] != tagv,
    ensures
        find_tag_from(tags, tagv, i) is None,
    decreases tags.len() - i,
{
    if i < tags.len() {
        lemma_find_tag_none(tags, tagv, i + 1);
    }
}

/// Unknown-tag rejection: a buffer whose tag bytes match no variant's
/// derived tag decodes to `UnknownTag`.
pub proof fn lemma_unknown_tag(data: Seq<u8>, t: TypeDesc)
    requires
        t is Enum,
        forall|k: int|
            0 <= k < derived_tags(t->Enum_0.variants@).len()
                ==> #[trigger] derived_tags(t->Enum_0.variants@)[k] != be_val(
                data.take(t->Enum_0.repr.spec_size() as int),
            ),
    ensures
        spec_decode(data, t) == Err::<ValueSpec, CodecError>(CodecError::UnknownTag),
{
    lemma_find_tag_none(
        derived_tags(t->Enum_0.variants@),
        be_val(data.take(t->Enum_0.repr.spec_size() as int)),
        0,
    );
}

/// Round trip: a value constructible from a well-formed descriptor decodes
/// from its own encoding, exactly.
pub proof fn lemma_round_trip(v: ValueSpec, t: TypeDesc)
    requires
        wf_desc(t),
        value_matches(v, t),
    ensures
        spec_decode(spec_encode(v, t), t) == Ok::<ValueSpec, CodecError>(v),
    decreases v, 1int, 0int,
{
    reveal_with_fuel(pow256, 9);
    let data = spec_encode(v, t);
    match v {
        ValueSpec::U8(x) => {
            lemma_be_roundtrip(x as nat, 1);
        },
        ValueSpec::I8(x) => {
            lemma_be_roundtrip((x as u8) as nat, 1);
            assert(x as u8 as i8 == x) by (bit_vector);
        },
        ValueSpec::U16(x) => {
            lemma_be_roundtrip(x as nat, 2);
        },
        ValueSpec::I16(x) => {
            lemma_be_roundtrip((x as u16) as nat, 2);
            assert(x as u16 as i16 == x) by (bit_vector);
        },
        ValueSpec::U32(x) => {
            lemma_be_roundtrip(x as nat, 4);
        },
        ValueSpec::I32(x) => {
            lemma_be_roundtrip((x as u32) as nat, 4);
            assert(x as u32 as i32 == x) by (bit_vector);
        },
        ValueSpec::U64(x) => {
            lemma_be_roundtrip(x as nat, 8);
        },
        ValueSpec::I64(x) => {
            lemma_be_roundtrip((x as u64) as nat, 8);
            assert(x as u64 as i64 == x) by (bit_vector);
        },
        ValueSpec::F32Bits(x) => {
            lemma_be_roundtrip(x as nat, 4);
        },
        ValueSpec::F64Bits(x) => {
            lemma_be_roundtrip(x as nat, 8);
        },
        ValueSpec::Bool(_) => {
        },
        ValueSpec::Struct(vs) => {
            lemma_encode_fields_len(v, t, 0);
            assert(data.subrange(0, struct_size_from(t, 0) as int) =~= encode_fields_from(
                v,
                t,
                0,
            ));
            lemma_fields_round_trip(v, t, 0, data);
            assert(Ok::<ValueSpec, CodecError>(ValueSpec::Struct(vs.skip(0)))
                == Ok::<ValueSpec, CodecError>(v)) by {
                assert(vs.skip(0) =~= vs);
            };
        },
        ValueSpec::Enum { variant, payload } => {
            let e = t->Enum_0;
            let w = e.repr.spec_size();
            let tags = derived_tags(e.variants@);
            lemma_derived_tags_len(e.variants@);
            let tag = tags[variant];
            let pbytes = if payload.len() == 1 && e.variants@[variant].payload is Some {
                spec_encode(payload[0], e.variants@[variant].payload->0)
            } else {
                Seq::empty()
            };
            let region = max_payload_from(t, 0);
            let pad = if pbytes.len() <= region {
                (region - pbytes.len()) as nat
            } else {
                0
            };
            lemma_be_bytes_len(tag, w);
            assert(data.take(w as int) =~= be_bytes(tag, w));
            lemma_be_roundtrip(tag, w);
            lemma_find_tag_finds(tags, tag, 0, variant);
            match e.variants@[variant].payload {
                None => {
                    assert(payload =~= Seq::<ValueSpec>::empty());
                },
                Some(pt) => {
                    lemma_encode_len(payload[0], pt);
                    lemma_round_trip(payload[0], pt);
                    assert(data.subrange(w as int, w as int + size_of(pt) as int) =~= pbytes);
                    assert(payload =~= seq![payload[0]]);
                },
            }
        },
    }
}

/// Round trip for the fields of a struct from index `i` on: within the
/// encoded bytes of the whole struct, decoding from field `i`'s offset
/// recovers the field values from `i` on.
proof fn lemma_fields_round_trip(v: ValueSpec, t: TypeDesc, i: int, data: Seq<u8>)
    requires
        wf_desc(t),
        value_matches(v, t),
        v is Struct,
        t is Struct,
        0 <= i <= v->Struct_0.len(),
        struct_offset(t, i) + struct_size_from(t, i) <= data.len(),
        data.subrange(
            struct_offset(t, i) as int,
            struct_offset(t, i) as int + struct_size_from(t, i) as int,
        ) == encode_fields_from(v, t, i),
    ensures
        decode_fields_from(data, t, i, struct_offset(t, i) as int) == Ok::<
            Seq<ValueSpec>,
            CodecError,
        >(v->Struct_0.skip(i)),
    decreases v, 0int, v->Struct_0.len() - i,
{
    let vs = v->Struct_0;
    let fs = t->Struct_0@;
    let off = struct_offset(t, i) as int;
    if i == vs.len() {
        assert(vs.skip(i) =~= Seq::<ValueSpec>::empty());
    } else {
        let sz = size_of(fs[i].ty) as int;
        let enc_i = spec_encode(vs[i], fs[i].ty);
        let rest = encode_fields_from(v, t, i + 1);
        lemma_encode_len(vs[i], fs[i].ty);
        lemma_encode_fields_len(v, t, i + 1);
        assert(data.subrange(off, off + sz) =~= enc_i) by {
            assert(data.subrange(off, off + struct_size_from(t, i) as int) == enc_i + rest);
            assert(forall|j: int|
                0 <= j < sz ==> data[off + j] == #[trigger] (enc_i + rest)[j]);
        };
        lemma_round_trip(vs[i], fs[i].ty);
        let tail = data.subrange(off + sz, off + sz + struct_size_from(t, i + 1) as int);
        assert(struct_size_from(t, i) == sz + struct_size_from(t, i + 1));
        assert forall|j: int| 0 <= j < rest.len() implies tail[j] == rest[j] by {
            assert((enc_i + rest)[sz + j] == rest[j]);
            assert(data.subrange(off, off + struct_size_from(t, i) as int)[sz + j] == data[off + sz
                + j]);
        };
        assert(tail =~= rest);
        assert(struct_offset(t, i + 1) == off + sz);
        lemma_fields_round_trip(v, t, i + 1, data);
        assert(seq![vs[i]] + vs.skip(i + 1) =~= vs.skip(i));
    }
}

/// Whether `v` is constructible from `t`; see [`value_matches`].
pub fn value_conforms(v: &Value, t: &TypeDesc) -> (b: bool)
    ensures
        b == value_matches(v.deep(), *t),
    decreases *v,
{
    match (v, t) {
        (Value::U8(_), TypeDesc::Prim(PrimType::U8)) => true,
        (Value::I8(_), TypeDesc::Prim(PrimType::I8)) => true,
        (Value::U16(_), TypeDesc::Prim(PrimType::U16)) => true,
        (Value::I16(_), TypeDesc::Prim(PrimType::I16)) => true,
        (Value::U32(_), TypeDesc::Prim(PrimType::U32)) => true,
        (Value::I32(_), TypeDesc::Prim(PrimType::I32)) => true,
        (Value::U64(_), TypeDesc::Prim(PrimType::U64)) => true,
        (Value::I64(_), TypeDesc::Prim(PrimType::I64)) => true,
        (Value::F32Bits(_), TypeDesc::Prim(PrimType::F32)) => true,
        (Value::F64Bits(_), TypeDesc::Prim(PrimType::F64)) => true,
        (Value::Bool(_), TypeDesc::Prim(PrimType::Bool)) => true,
        (Value::Struct(vs), TypeDesc::Struct(fs)) => {
            proof {
                reveal_with_fuel(Value::deep, 2);
            }
            if vs.len() != fs.len() {
                return false;
            }
            let mut i: usize = 0;
            while i < vs.len()
                invariant
                    *v == Value::Struct(*vs),
                    *t == TypeDesc::Struct(*fs),
                    vs@.len() == fs@.len(),
                    i <= vs@.len(),
                    forall|k: int|
                        0 <= k < i ==> value_matches(#[trigger] vs@[k].deep(), fs@[k].ty),
                decreases vs@.len() - i,
            {
                if !value_conforms(&vs[i], &fs[i].ty) {
                    proof {
                        reveal_with_fuel(Value::deep, 2);
                        assert(v.deep()->Struct_0 == deep_seq(vs@));
                        assert(deep_seq(vs@)[i as int] == vs@[i as int].deep());
                    }
                    return false;
                }
                i += 1;
            }
            proof {
                reveal_with_fuel(Value::deep, 2);
                assert forall|k: int| 0 <= k < vs@.len() implies value_matches(
                    #[trigger] v.deep()->Struct_0[k],
                    fs@[k].ty,
                ) by {
                    assert(v.deep()->Struct_0 == deep_seq(vs@));
                    assert(deep_seq(vs@)[k] == vs@[k].deep());
                }
            }
            true
        },
        (Value::Enum(ev), TypeDesc::Enum(e)) => {
            if ev.variant >= e.variants.len() {
                return false;
            }
            match (&ev.payload, &e.variants[ev.variant].payload) {
                (Option::None, Option::None) => true,
                (Option::Some(pv), Option::Some(pt)) => {
                    let r = value_conforms(pv, pt);
                    proof {
                        assert(v.deep()->payload =~= seq![(**pv).deep()]);
                    }
                    r
                },
                _ => false,
            }
        },
        _ => false,
    }
}

/// Encodes a matching value into the `size_of` its descriptor assigns.
/// Fails exactly when the value does not conform to the descriptor or the
/// descriptor's width cannot be represented; a conforming value always
/// encodes.
pub fn encode(v: &Value, t: &TypeDesc) -> (r: Result<Vec<u8>, CodecError>)
    ensures
        r is Ok <==> value_matches(v.deep(), *t) && size_of(*t) <= usize::MAX,
        r is Ok ==> r->Ok_0@ == spec_encode(v.deep(), *t) && r->Ok_0@.len() == size_of(*t),
        r is Err ==> r->Err_0 == CodecError::MalformedDescriptor,
{
    if !value_conforms(v, t) {
        return Err(CodecError::MalformedDescriptor);
    }
    match total_size(t) {
        Ok(_) => Ok(encode_rec(v, t)),
        Err(e) => Err(e),
    }
}

/// Encodes a value known to conform to a representable descriptor.
fn encode_rec(v: &Value, t: &TypeDesc) -> (out: Vec<u8>)
    requires
        value_matches(v.deep(), *t),
        size_of(*t) <= usize::MAX,
    ensures
        out@ == spec_encode(v.deep(), *t),
        out@.len() == size_of(*t),
    decreases *v,
{
    proof {
        lemma_encode_len(v.deep(), *t);
    }
    match (v, t) {
        (Value::U8(x), _) => be_bytes_exec(*x as u64, 1),
        (Value::I8(x), _) => be_bytes_exec((#[verifier::truncate] (*x as u8)) as u64, 1),
        (Value::U16(x), _) => be_bytes_exec(*x as u64, 2),
        (Value::I16(x), _) => be_bytes_exec((#[verifier::truncate] (*x as u16)) as u64, 2),
        (Value::U32(x), _) => be_bytes_exec(*x as u64, 4),
        (Value::I32(x), _) => be_bytes_exec((#[verifier::truncate] (*x as u32)) as u64, 4),
        (Value::U64(x), _) => be_bytes_exec(*x, 8),
        (Value::I64(x), _) => be_bytes_exec(#[verifier::truncate] (*x as u64), 8),
        (Value::F32Bits(x), _) => be_bytes_exec(*x as u64, 4),
        (Value::F64Bits(x), _) => be_bytes_exec(*x as u64, 8),
        (Value::Bool(b), _) => {
            let mut out: Vec<u8> = Vec::new();
            out.push(if *b {
                1
            } else {
                0
            });
            proof {
                assert(out@ =~= spec_encode(v.deep(), *t));
            }
            out
        },
        (Value::Struct(vs), TypeDesc::Struct(fs)) => {
            let ghost dv = v.deep();
            let mut out: Vec<u8> = Vec::new();
            let mut i: usize = 0;
            proof {
                reveal_with_fuel(Value::deep, 2);
                assert(dv->Struct_0.len() == vs@.len());
            }
            while i < vs.len()
                invariant
                    *v == Value::Struct(*vs),
                    *t == TypeDesc::Struct(*fs),
                    dv == v.deep(),
                    value_matches(dv, *t),
                    size_of(*t) <= usize::MAX,
                    vs@.len() == fs@.len(),
                    i <= vs@.len(),
                    encode_fields_from(dv, *t, 0) == out@ + encode_fields_from(dv, *t, i as int),
                decreases vs@.len() - i,
            {
                proof {
                    reveal_with_fuel(Value::deep, 2);
                    assert(dv->Struct_0 == deep_seq(vs@));
                    assert(deep_seq(vs@)[i as int] == vs@[i as int].deep());
                    lemma_offset_plus_suffix(*t, i as int);
                    lemma_suffix_ge_field(*t, i as int);
                }
                let mut fb = encode_rec(&vs[i], &fs[i].ty);
                proof {
                    assert(encode_fields_from(dv, *t, i as int) == spec_encode(
                        dv->Struct_0[i as int],
                        fs@[i as int].ty,
                    ) + encode_fields_from(dv, *t, i + 1));
                }
                out.append(&mut fb);
                proof {
                    assert(encode_fields_from(dv, *t, 0) =~= out@ + encode_fields_from(
                        dv,
                        *t,
                        i + 1,
                    ));
                }
                i += 1;
            }
            proof {
                assert(encode_fields_from(dv, *t, i as int) =~= Seq::<u8>::empty());
                assert(out@ =~= encode_fields_from(dv, *t, 0));
            }
            out
        },
        (Value::Enum(ev), TypeDesc::Enum(e)) => {
            let ghost dv = v.deep();
            proof {
                lemma_derived_tags_len(e.variants@);
            }
            let ghost spec_tag = derived_tags(e.variants@)[ev.variant as int];
            let ghost w_s = e.repr.spec_size();
            let tags = tag_values(&e.variants);
            let tag = tags[ev.variant];
            let w = e.repr.size();
            let mut out = be_bytes_exec(tag, w);
            proof {
                lemma_pow256_pos(w_s);
                lemma_pow256_pos((8 - w_s) as nat);
                lemma_pow256_adds(w_s, (8 - w_s) as nat);
                vstd::arithmetic::div_mod::lemma_mod_mod(
                    spec_tag as int,
                    pow256(w_s) as int,
                    pow256((8 - w_s) as nat) as int,
                );
                lemma_be_bytes_mod(tag as nat, w_s);
                lemma_be_bytes_mod(spec_tag, w_s);
                assert(tag as nat % pow256(w_s) == spec_tag % pow256(w_s));
                assert(out@ == be_bytes(spec_tag, w_s));
                lemma_be_bytes_len(spec_tag, w_s);
            }
            let ghost pbytes = if dv->payload.len() == 1 && e.variants@[ev.variant
                as int].payload is Some {
                spec_encode(dv->payload[0], e.variants@[ev.variant as int].payload->0)
            } else {
                Seq::<u8>::empty()
            };
            match (&ev.payload, &e.variants[ev.variant].payload) {
                (Option::Some(pv), Option::Some(pt)) => {
                    proof {
                        lemma_max_ge_payload(*t, 0, ev.variant as int);
                    }
                    let mut pb = encode_rec(pv, pt);
                    out.append(&mut pb);
                },
                (Option::None, Option::None) => {
                    proof {
                        assert(pbytes =~= Seq::<u8>::empty());
                    }
                },
                _ => {
                    proof {
                        assert(false);
                    }
                    vstd::pervasive::unreached()
                },
            }
            proof {
                assert(out@ == be_bytes(spec_tag, w_s) + pbytes);
                lemma_max_ge_payload(*t, 0, ev.variant as int);
            }
            let total = match total_size(t) {
                Ok(s) => s,
                Err(_) => {
                    proof {
                        assert(false);
                    }
                    vstd::pervasive::unreached()
                },
            };
            let ghost prefix = out@;
            while out.len() < total
                invariant
                    prefix.len() <= out@.len() <= total,
                    out@ == prefix + zeros((out@.len() - prefix.len()) as nat),
                decreases total - out@.len(),
            {
                out.push(0);
                proof {
                    assert(zeros((out@.len() - prefix.len()) as nat) =~= zeros(
                        ((out@.len() - 1) - prefix.len()) as nat,
                    ).push(0u8));
                }
            }
            proof {
                assert(out@ == spec_encode(dv, *t));
            }
            out
        },
        _ => {
            proof {
                assert(false);
            }
            vstd::pervasive::unreached()
        },
    }
}

/// Decodes a byte string of the descriptor's exact width. All-or-nothing:
/// the first invalid byte pattern met, in field and tag order, is returned
/// as the error, unmodified, and no partial value escapes. The result is
/// pinned to [`spec_decode`], error for error.
pub fn decode(data: &[u8], t: &TypeDesc) -> (r: Result<Value, CodecError>)
    requires
        data@.len() == size_of(*t),
    ensures
        match (r, spec_decode(data@, *t)) {
            (Ok(v), Ok(sv)) => v.deep() == sv,
            (Err(e1), Err(e2)) => e1 == e2,
            _ => false,
        },
    decreases *t,
{
    match t {
        TypeDesc::Prim(p) => {
            proof {
                reveal_with_fuel(pow256, 9);
                lemma_be_val_bound(data@);
            }
            match p {
                PrimType::U8 => Ok(Value::U8(be_val_exec(data) as u8)),
                PrimType::I8 => Ok(
                    Value::I8(#[verifier::truncate] ((be_val_exec(data) as u8) as i8)),
                ),
                PrimType::U16 => Ok(Value::U16(be_val_exec(data) as u16)),
                PrimType::I16 => Ok(
                    Value::I16(#[verifier::truncate] ((be_val_exec(data) as u16) as i16)),
                ),
                PrimType::U32 => Ok(Value::U32(be_val_exec(data) as u32)),
                PrimType::I32 => Ok(
                    Value::I32(#[verifier::truncate] ((be_val_exec(data) as u32) as i32)),
                ),
                PrimType::U64 => Ok(Value::U64(be_val_exec(data))),
                PrimType::I64 => Ok(Value::I64(#[verifier::truncate] (be_val_exec(data) as i64))),
                PrimType::F32 => Ok(Value::F32Bits(be_val_exec(data) as u32)),
                PrimType::F64 => Ok(Value::F64Bits(be_val_exec(data))),
                PrimType::Bool => {
                    proof {
                        assert(data@.drop_last() =~= Seq::<u8>::empty());
                        assert(be_val(data@) == data@[0]);
                    }
                    let x = be_val_exec(data);
                    if x == 0 {
                        Ok(Value::Bool(false))
                    } else if x == 1 {
                        Ok(Value::Bool(true))
                    } else {
                        Err(CodecError::InvalidScalar)
                    }
                },
            }
        },
        TypeDesc::Struct(fields) => {
            let mut vals: Vec<Value> = Vec::new();
            let mut off: usize = 0;
            let mut i: usize = 0;
            while i < fields.len()
                invariant
                    *t == TypeDesc::Struct(*fields),
                    data@.len() == size_of(*t),
                    i <= fields@.len(),
                    off == struct_offset(*t, i as int),
                    vals@.len() == i,
                    decode_fields_from(data@, *t, 0, 0) == (match decode_fields_from(
                        data@,
                        *t,
                        i as int,
                        off as int,
                    ) {
                        Ok(rest) => Ok::<Seq<ValueSpec>, CodecError>(deep_seq(vals@) + rest),
                        Err(e) => Err(e),
                    }),
                decreases fields@.len() - i,
            {
                proof {
                    vstd::slice::axiom_spec_len(data);
                    reveal_with_fuel(size_of, 3);
                    lemma_offset_plus_suffix(*t, i as int);
                    lemma_offset_plus_suffix(*t, i + 1);
                    lemma_suffix_ge_field(*t, i as int);
                }
                let sz = match total_size(&fields[i].ty) {
                    Ok(s) => s,
                    Err(_) => {
                        proof {
                            assert(false);
                        }
                        vstd::pervasive::unreached()
                    },
                };
                let sub = vstd::slice::slice_subrange(data, off, off + sz);
                match decode(sub, &fields[i].ty) {
                    Err(e) => {
                        return Err(e);
                    },
                    Ok(fv) => {
                        let ghost old_vals = vals@;
                        vals.push(fv);
                        proof {
                            reveal_with_fuel(Value::deep, 2);
                            assert(deep_seq(vals@) =~= deep_seq(old_vals).push(fv.deep()));
                            let fsv = spec_decode(
                                data@.subrange(off as int, off as int + sz as int),
                                fields@[i as int].ty,
                            )->Ok_0;
                            let rest = decode_fields_from(data@, *t, i + 1, off + sz);
                            if rest is Ok {
                                assert(deep_seq(old_vals) + (seq![fsv] + rest->Ok_0) =~= deep_seq(
                                    vals@,
                                ) + rest->Ok_0);
                            }
                        }
                    },
                }
                off = off + sz;
                i += 1;
            }
            proof {
                assert(deep_seq(vals@) + Seq::<ValueSpec>::empty() =~= deep_seq(vals@));
                reveal_with_fuel(Value::deep, 2);
            }
            Ok(Value::Struct(vals))
        },
        TypeDesc::Enum(e) => {
            let ghost tags = derived_tags(e.variants@);
            proof {
                lemma_derived_tags_len(e.variants@);
            }
            let w = e.repr.size();
            let tag_slice = vstd::slice::slice_subrange(data, 0, w);
            proof {
                assert(tag_slice@ =~= data@.take(w as int));
            }
            let tagv = be_val_exec(tag_slice);
            let mut anchor: u64 = 0;
            let mut counter: u64 = 0;
            let mut i: usize = 0;
            while i < e.variants.len()
                invariant
                    *t == TypeDesc::Enum(*e),
                    data@.len() == size_of(*t),
                    w == e.repr.spec_size(),
                    tagv as nat == be_val(data@.take(w as int)),
                    tags == derived_tags(e.variants@),
                    tags.len() == e.variants@.len(),
                    i <= e.variants@.len(),
                    counter <= i,
                    tags_from(e.variants@, anchor as nat, counter as nat, i as int) == tags.skip(
                        i as int,
                    ),
                    find_tag_from(tags, tagv as nat, 0) == find_tag_from(
                        tags,
                        tagv as nat,
                        i as int,
                    ),
                decreases e.variants@.len() - i,
            {
                proof {
                    assert(tags.skip(i as int)[0] == tags[i as int]);
                }
                let ghost a0 = anchor as nat;
                let ghost c0 = counter as nat;
                let tag_i: Option<u64>;
                match e.variants[i].discriminant {
                    Some(d) => {
                        tag_i = Some(d);
                        anchor = d;
                        counter = 1;
                    },
                    None => {
                        tag_i = anchor.checked_add(counter);
                        counter = counter + 1;
                    },
                }
                proof {
                    let tail = tags_from(e.variants@, anchor as nat, counter as nat, i + 1);
                    let spec_tag = match e.variants@[i as int].discriminant {
                        Some(d) => d as nat,
                        None => a0 + c0,
                    };
                    assert(tags_from(e.variants@, a0, c0, i as int) == seq![spec_tag] + tail);
                    assert((seq![spec_tag] + tail).skip(1) =~= tail);
                    assert(tags.skip(i as int).skip(1) =~= tags.skip(i + 1));
                    assert(tags[i as int] == spec_tag);
                    assert(match tag_i {
                        Some(tv) => tv as nat == spec_tag,
                        None => spec_tag > u64::MAX,
                    });
                }
                let matched = match tag_i {
                    Some(tv) => tv == tagv,
                    None => false,
                };
                if matched {
                    proof {
                        lemma_find_tag_finds(tags, tagv as nat, i as int, i as int);
                    }
                    match &e.variants[i].payload {
                        None => {
                            return Ok(Value::Enum(EnumValue { variant: i, payload: None }));
                        },
                        Some(pt) => {
                            proof {
                                vstd::slice::axiom_spec_len(data);
                                reveal_with_fuel(size_of, 3);
                                lemma_max_ge_payload(*t, 0, i as int);
                            }
                            let psz = match total_size(pt) {
                                Ok(s) => s,
                                Err(_) => {
                                    proof {
                                        assert(false);
                                    }
                                    vstd::pervasive::unreached()
                                },
                            };
                            let sub = vstd::slice::slice_subrange(data, w, w + psz);
                            match decode(sub, pt) {
                                Ok(pv) => {
                                    return Ok(
                                        Value::Enum(
                                            EnumValue { variant: i, payload: Some(Box::new(pv)) },
                                        ),
                                    );
                                },
                                Err(err) => {
                                    return Err(err);
                                },
                            }
                        },
                    }
                }
                i += 1;
            }
            Err(CodecError::UnknownTag)
        },
    }
}

} // verus!
