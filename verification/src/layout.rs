//! The layout engine: total byte widths, struct field offsets, and enum tag
//! values, computed deterministically from a descriptor.
//!
//! Everything here is a pure function of the descriptor; recomputing a layout
//! yields the same result, so callers may cache or recompute at will.

use vstd::prelude::*;
use crate::bytes::{lemma_pow256_increases, pow256};
use crate::descriptor::{
    CodecError, EnumDesc, FieldDesc, ReprWidth, TypeDesc, VariantDesc, derived_tags,
    lemma_derived_tags_len, max_payload_from, size_of, struct_size_from, tags_from, wf_desc,
    wf_field, wf_variant,
};

verus! {

/// The byte offset of struct field `i`: the summed widths of the fields
/// before it. Field `i` owns the byte range from its offset to its offset
/// plus its own width; the ranges are contiguous and cover the struct.
pub open spec fn struct_offset(t: TypeDesc, i: int) -> nat
    decreases i,
{
    if !(t is Struct) || i <= 0 {
        0
    } else {
        struct_offset(t, i - 1) + size_of(t->Struct_0@[i - 1].ty)
    }
}

/// A field's offset plus the widths of the remaining fields makes the total.
pub proof fn lemma_offset_plus_suffix(t: TypeDesc, i: int)
    requires
        t is Struct,
        0 <= i <= t->Struct_0@.len(),
    ensures
        struct_offset(t, i) + struct_size_from(t, i) == struct_size_from(t, 0),
    decreases i,
{
    if i > 0 {
        lemma_offset_plus_suffix(t, i - 1);
    }
}

/// The suffix sum from `i` is at least field `i`'s own width.
pub proof fn lemma_suffix_ge_field(t: TypeDesc, i: int)
    requires
        t is Struct,
        0 <= i < t->Struct_0@.len(),
    ensures
        struct_size_from(t, i) >= size_of(t->Struct_0@[i].ty),
{
}

/// The widest payload is at least variant `i`'s payload width.
pub proof fn lemma_max_ge_payload(t: TypeDesc, i: int, j: int)
    requires
        t is Enum,
        0 <= i <= j < t->Enum_0.variants@.len(),
    ensures
        max_payload_from(t, i) >= crate::descriptor::payload_size(t->Enum_0.variants@[j]),
    decreases j - i,
{
    if i < j {
        lemma_max_ge_payload(t, i + 1, j);
    }
}

/// Size additivity: a struct's total width is the sum of its fields' widths.
/// Field 0 starts at byte 0, each field starts where the one before it ends,
/// and the last one ends at the total width: the field ranges are contiguous,
/// non-overlapping, and cover the struct exactly.
pub proof fn lemma_struct_size_additive(t: TypeDesc)
    requires
        t is Struct,
    ensures
        struct_offset(t, 0) == 0,
        forall|i: int|
            0 <= i < t->Struct_0@.len() ==> #[trigger] struct_offset(t, i + 1) == struct_offset(
                t,
                i,
            ) + size_of(t->Struct_0@[i].ty),
        size_of(t) == struct_offset(t, t->Struct_0@.len() as int),
{
    lemma_offset_plus_suffix(t, t->Struct_0@.len() as int);
}

/// Enum size: an enum's total width is its tag width plus the widest payload
/// width (0 when no variant carries a payload): the widest payload width
/// bounds every variant's payload, and is attained by some variant unless it
/// is 0.
pub proof fn lemma_enum_size(t: TypeDesc)
    requires
        t is Enum,
    ensures
        size_of(t) == t->Enum_0.repr.spec_size() + max_payload_from(t, 0),
        forall|k: int|
            0 <= k < t->Enum_0.variants@.len() ==> max_payload_from(t, 0)
                >= crate::descriptor::payload_size(#[trigger] t->Enum_0.variants@[k]),
        max_payload_from(t, 0) == 0 || exists|k: int|
            0 <= k < t->Enum_0.variants@.len() && crate::descriptor::payload_size(
                #[trigger] t->Enum_0.variants@[k],
            ) == max_payload_from(t, 0),
{
    assert forall|k: int| 0 <= k < t->Enum_0.variants@.len() implies max_payload_from(t, 0)
        >= crate::descriptor::payload_size(#[trigger] t->Enum_0.variants@[k]) by {
        lemma_max_ge_payload(t, 0, k);
    };
    lemma_max_attained(t, 0);
}

/// The widest payload width from `i` on is 0 or some variant's payload width.
proof fn lemma_max_attained(t: TypeDesc, i: int)
    requires
        t is Enum,
        0 <= i <= t->Enum_0.variants@.len(),
    ensures
        max_payload_from(t, i) == 0 || exists|k: int|
            i <= k < t->Enum_0.variants@.len() && crate::descriptor::payload_size(
                #[trigger] t->Enum_0.variants@[k],
            ) == max_payload_from(t, i),
    decreases t->Enum_0.variants@.len() - i,
{
    if i < t->Enum_0.variants@.len() {
        lemma_max_attained(t, i + 1);
    }
}

/// Computes the total byte width of the described type, checking that it is
/// representable on this machine.
pub fn total_size(t: &TypeDesc) -> (r: Result<usize, CodecError>)
    ensures
        r is Ok <==> size_of(*t) <= usize::MAX,
        r is Ok ==> r->Ok_0 == size_of(*t),
        r is Err ==> r->Err_0 == CodecError::MalformedDescriptor,
    decreases *t,
{
    match t {
        TypeDesc::Prim(p) => Ok(p.size()),
        TypeDesc::Struct(fields) => {
            let mut acc: usize = 0;
            let mut i: usize = 0;
            while i < fields.len()
                invariant
                    *t == TypeDesc::Struct(*fields),
                    i <= fields@.len(),
                    acc + struct_size_from(*t, i as int) == struct_size_from(*t, 0),
                decreases fields@.len() - i,
            {
                let fs = match total_size(&fields[i].ty) {
                    Ok(s) => s,
                    Err(e) => {
                        return Err(e);
                    },
                };
                acc = match acc.checked_add(fs) {
                    Some(a) => a,
                    None => {
                        return Err(CodecError::MalformedDescriptor);
                    },
                };
                i += 1;
            }
            Ok(acc)
        },
        TypeDesc::Enum(e) => {
            let mut widest: usize = 0;
            let mut i: usize = 0;
            while i < e.variants.len()
                invariant
                    *t == TypeDesc::Enum(*e),
                    i <= e.variants@.len(),
                    widest <= usize::MAX,
                    max_payload_from(*t, 0) == (if widest as nat >= max_payload_from(
                        *t,
                        i as int,
                    ) {
                        widest as nat
                    } else {
                        max_payload_from(*t, i as int)
                    }),
                decreases e.variants@.len() - i,
            {
                match &e.variants[i].payload {
                    Some(p) => {
                        let ps = match total_size(p) {
                            Ok(s) => s,
                            Err(err) => {
                                return Err(err);
                            },
                        };
                        if ps > widest {
                            widest = ps;
                        }
                    },
                    None => {},
                }
                i += 1;
            }
            match e.repr.size().checked_add(widest) {
                Some(total) => Ok(total),
                None => Err(CodecError::MalformedDescriptor),
            }
        },
    }
}

/// Computes every variant's tag, in declaration order, by the anchor/counter
/// rule. Tags are reduced modulo the 8-byte range; writing a tag keeps only
/// the bytes its representation width admits, so the reduction never changes
/// what is encoded, and for well-formed descriptors it changes nothing at
/// all.
pub fn tag_values(variants: &Vec<VariantDesc>) -> (r: Vec<u64>)
    ensures
        r@.len() == variants@.len(),
        forall|k: int|
            0 <= k < r@.len() ==> #[trigger] r@[k] as nat == derived_tags(variants@)[k] % pow256(
                8,
            ),
{
    let ghost all = derived_tags(variants@);
    proof {
        lemma_derived_tags_len(variants@);
    }
    let mut out: Vec<u64> = Vec::new();
    let mut anchor: u64 = 0;
    let mut counter: u64 = 0;
    let mut i: usize = 0;
    while i < variants.len()
        invariant
            i <= variants@.len(),
            counter <= i,
            out@.len() == i,
            all == derived_tags(variants@),
            all.len() == variants@.len(),
            tags_from(variants@, anchor as nat, counter as nat, i as int) == all.skip(i as int),
            forall|k: int| 0 <= k < i ==> #[trigger] out@[k] as nat == all[k] % pow256(8),
        decreases variants@.len() - i,
    {
        let ghost a0 = anchor as nat;
        let ghost c0 = counter as nat;
        proof {
            reveal_with_fuel(pow256, 9);
            assert(all.skip(i as int)[0] == all[i as int]);
        }
        let tag: u64;
        match variants[i].discriminant {
            Some(d) => {
                tag = d;
                anchor = d;
                counter = 1;
            },
            None => {
                tag = anchor.wrapping_add(counter);
                counter = counter + 1;
            },
        }
        proof {
            let tail = tags_from(variants@, anchor as nat, counter as nat, i + 1);
            let spec_tag = match variants@[i as int].discriminant {
                Some(d) => d as nat,
                None => a0 + c0,
            };
            assert(tags_from(variants@, a0, c0, i as int) == seq![spec_tag] + tail);
            assert((seq![spec_tag] + tail).skip(1) =~= tail);
            assert(all.skip(i as int).skip(1) =~= all.skip(i + 1));
            assert(tail == all.skip(i + 1));
            assert(all[i as int] == spec_tag);
            assert(tag as nat == spec_tag % pow256(8)) by {
                if variants@[i as int].discriminant is Some || spec_tag <= u64::MAX {
                    vstd::arithmetic::div_mod::lemma_small_mod(spec_tag, pow256(8));
                } else {
                    vstd::arithmetic::div_mod::lemma_fundamental_div_mod_converse(
                        spec_tag as int,
                        pow256(8) as int,
                        1,
                        spec_tag - pow256(8),
                    );
                }
            };
        }
        out.push(tag);
        i += 1;
    }
    out
}

/// Decides whether a descriptor is well formed: every nested descriptor is,
/// every derived tag fits its representation width, and no two variants of
/// one enum share a tag. Decoding is defined for any descriptor (duplicate
/// tags decode to the first declared match), but the round-trip guarantee
/// holds only for well-formed ones, so callers can reject the rest here.
pub fn is_well_formed(t: &TypeDesc) -> (b: bool)
    ensures
        b == wf_desc(*t),
    decreases *t,
{
    match t {
        TypeDesc::Prim(_) => true,
        TypeDesc::Struct(fields) => {
            let mut i: usize = 0;
            while i < fields.len()
                invariant
                    *t == TypeDesc::Struct(*fields),
                    i <= fields@.len(),
                    forall|k: int| 0 <= k < i ==> wf_field(#[trigger] fields@[k]),
                decreases fields@.len() - i,
            {
                proof {
                    vstd::std_specs::vec::axiom_vec_index_decreases(*fields, i as int);
                    assert(t->Struct_0 == *fields);
                    assert(decreases_to!(*t => t->Struct_0));
                    assert(decreases_to!(*t => fields@[i as int].ty));
                    reveal_with_fuel(wf_desc, 2);
                }
                if !is_well_formed(&fields[i].ty) {
                    proof {
                        assert(!wf_field(fields@[i as int]));
                    }
                    return false;
                }
                proof {
                    assert(wf_field(fields@[i as int]));
                }
                i += 1;
            }
            true
        },
        TypeDesc::Enum(e) => {
            let ghost all = derived_tags(e.variants@);
            proof {
                lemma_derived_tags_len(e.variants@);
                reveal_with_fuel(pow256, 9);
            }
            let limit: Option<u64> = match e.repr {
                ReprWidth::W1 => Some(0x100),
                ReprWidth::W2 => Some(0x10000),
                ReprWidth::W4 => Some(0x100000000),
                ReprWidth::W8 => None,
            };
            let mut tags: Vec<u64> = Vec::new();
            let mut anchor: u64 = 0;
            let mut counter: u64 = 0;
            let mut i: usize = 0;
            while i < e.variants.len()
                invariant
                    *t == TypeDesc::Enum(*e),
                    all == derived_tags(e.variants@),
                    all.len() == e.variants@.len(),
                    match limit {
                        Some(l) => l == pow256(e.repr.spec_size()),
                        None => e.repr.spec_size() == 8,
                    },
                    i <= e.variants@.len(),
                    counter <= i,
                    tags@.len() == i,
                    tags_from(e.variants@, anchor as nat, counter as nat, i as int) == all.skip(
                        i as int,
                    ),
                    forall|k: int| 0 <= k < i ==> wf_variant(#[trigger] e.variants@[k]),
                    forall|k: int| 0 <= k < i ==> #[trigger] tags@[k] as nat == all[k],
                    forall|k: int|
                        0 <= k < i ==> #[trigger] all[k] < pow256(e.repr.spec_size()),
                decreases e.variants@.len() - i,
            {
                match &e.variants[i].payload {
                    Some(p) => {
                        proof {
                            vstd::std_specs::vec::axiom_vec_index_decreases(
                                t->Enum_0.variants,
                                i as int,
                            );
                            assert(t->Enum_0.variants@[i as int].payload->0 == *p);
                            assert(decreases_to!(*t => *p));
                            reveal_with_fuel(wf_desc, 2);
                        }
                        if !is_well_formed(p) {
                            proof {
                                assert(!wf_variant(e.variants@[i as int]));
                            }
                            return false;
                        }
                        proof {
                            assert(wf_variant(e.variants@[i as int]));
                        }
                    },
                    None => {
                        proof {
                            reveal_with_fuel(wf_desc, 2);
                            assert(wf_variant(e.variants@[i as int]));
                        }
                    },
                }
                proof {
                    assert(all.skip(i as int)[0] == all[i as int]);
                    reveal_with_fuel(pow256, 9);
                }
                let ghost a0 = anchor as nat;
                let ghost c0 = counter as nat;
                let tag_i: Option<u64>;
                match e.variants[i].discriminant {
                    Some(d) => {
                        tag_i = Some(d);
                        anchor = d;
                        counter = 1;
                    },
                    None => {
                        tag_i = anchor.checked_add(counter);
                        counter = counter + 1;
                    },
                }
                proof {
                    let tail = tags_from(e.variants@, anchor as nat, counter as nat, i + 1);
                    let spec_tag = match e.variants@[i as int].discriminant {
                        Some(d) => d as nat,
                        None => a0 + c0,
                    };
                    assert(tags_from(e.variants@, a0, c0, i as int) == seq![spec_tag] + tail);
                    assert((seq![spec_tag] + tail).skip(1) =~= tail);
                    assert(all.skip(i as int).skip(1) =~= all.skip(i + 1));
                    assert(all[i as int] == spec_tag);
                    assert(tags_from(e.variants@, anchor as nat, counter as nat, i + 1)
                        == all.skip(i + 1));
                    assert(match tag_i {
                        Some(tv) => tv as nat == all[i as int],
                        None => all[i as int] > u64::MAX,
                    });
                    lemma_pow256_increases(e.repr.spec_size(), 8);
                }
                let tv = match tag_i {
                    Some(tv) => tv,
                    None => {
                        proof {
                            reveal_with_fuel(wf_desc, 2);
                            assert(!(derived_tags(e.variants@)[i as int] < pow256(
                                e.repr.spec_size(),
                            )));
                        }
                        return false;
                    },
                };
                match limit {
                    Some(l) => {
                        if tv >= l {
                            proof {
                                reveal_with_fuel(wf_desc, 2);
                                assert(!(derived_tags(e.variants@)[i as int] < pow256(
                                    e.repr.spec_size(),
                                )));
                            }
                            return false;
                        }
                    },
                    None => {},
                }
                tags.push(tv);
                proof {
                    reveal_with_fuel(pow256, 9);
                    assert(tags@[i as int] as nat == all[i as int]);
                    assert(all[i as int] < pow256(e.repr.spec_size()));
                }
                i += 1;
            }
            let n = tags.len();
            let mut x: usize = 0;
            while x < n
                invariant
                    *t == TypeDesc::Enum(*e),
                    all == derived_tags(e.variants@),
                    all.len() == e.variants@.len(),
                    n == tags@.len() == e.variants@.len(),
                    x <= n,
                    forall|k: int| 0 <= k < n ==> wf_variant(#[trigger] e.variants@[k]),
                    forall|k: int| 0 <= k < n ==> #[trigger] tags@[k] as nat == all[k],
                    forall|k: int|
                        0 <= k < n ==> #[trigger] all[k] < pow256(e.repr.spec_size()),
                    forall|a: int, b: int|
                        0 <= a < x && a < b < n ==> #[trigger] all[a] != #[trigger] all[b],
                decreases n - x,
            {
                let mut y: usize = x + 1;
                while y < n
                    invariant
                        *t == TypeDesc::Enum(*e),
                        all == derived_tags(e.variants@),
                        all.len() == e.variants@.len(),
                        n == tags@.len() == e.variants@.len(),
                        x < n,
                        x < y <= n,
                        forall|k: int| 0 <= k < n ==> #[trigger] tags@[k] as nat == all[k],
                        forall|k: int|
                            0 <= k < n ==> #[trigger] all[k] < pow256(e.repr.spec_size()),
                        forall|b: int| x < b < y ==> all[x as int] != #[trigger] all[b],
                    decreases n - y,
                {
                    if tags[x] == tags[y] {
                        proof {
                            reveal_with_fuel(wf_desc, 2);
                            assert(derived_tags(e.variants@)[x as int] == derived_tags(
                                e.variants@,
                            )[y as int]);
                        }
                        return false;
                    }
                    y += 1;
                }
                x += 1;
            }
            proof {
                reveal_with_fuel(wf_desc, 2);
                assert forall|k: int| 0 <= k < e.variants@.len() implies #[trigger] derived_tags(
                    e.variants@,
                )[k] < pow256(e.repr.spec_size()) by {
                    assert(tags@[k] as nat == all[k]);
                };
                assert forall|a: int, b: int|
                    0 <= a < b < derived_tags(e.variants@).len() implies #[trigger] derived_tags(
                    e.variants@,
                )[a] != #[trigger] derived_tags(e.variants@)[b] by {
                    assert(all[a] != all[b]);
                };
                assert(wf_desc(*t));
            }
            true
        },
    }
}

/// The computed layout of a struct descriptor: total width and each field's
/// byte offset, in declaration order.
#[derive(Debug, Clone, PartialEq, Eq)]
pub struct StructLayout {
    pub total_size: usize,
    pub offsets: Vec<usize>,
}

/// The computed layout of an enum descriptor: total width, tag width, and
/// each variant's tag, in declaration order.
#[derive(Debug, Clone, PartialEq, Eq)]
pub struct EnumLayout {
    pub total_size: usize,
    pub tag_width: usize,
    pub tags: Vec<u64>,
}

/// The computed layout of a descriptor.
#[derive(Debug, Clone, PartialEq, Eq)]
pub enum Layout {
    Prim { total_size: usize },
    Struct(StructLayout),
    Enum(EnumLayout),
}

impl Layout {
    pub open spec fn spec_total_size(self) -> nat {
        match self {
            Layout::Prim { total_size } => total_size as nat,
            Layout::Struct(sl) => sl.total_size as nat,
            Layout::Enum(el) => el.total_size as nat,
        }
    }

    /// The number of bytes a value of the laid-out type occupies.
    pub fn total_size(&self) -> (n: usize)
        ensures
            n == self.spec_total_size(),
    {
        match self {
            Layout::Prim { total_size } => *total_size,
            Layout::Struct(sl) => sl.total_size,
            Layout::Enum(el) => el.total_size,
        }
    }
}

/// What it means for `l` to be the layout of `t`: every component is pinned
/// to a function of the descriptor alone, so any two layouts of the same
/// descriptor agree.
pub open spec fn is_layout_of(t: TypeDesc, l: Layout) -> bool {
    match t {
        TypeDesc::Prim(_) => l == (Layout::Prim { total_size: size_of(t) as usize })
            && size_of(t) <= usize::MAX,
        TypeDesc::Struct(fields) => match l {
            Layout::Struct(sl) => {
                &&& sl.total_size == size_of(t)
                &&& sl.offsets@.len() == fields@.len()
                &&& forall|k: int|
                    0 <= k < fields@.len() ==> #[trigger] sl.offsets@[k] == struct_offset(t, k)
            },
            _ => false,
        },
        TypeDesc::Enum(e) => match l {
            Layout::Enum(el) => {
                &&& el.total_size == size_of(t)
                &&& el.tag_width == e.repr.spec_size()
                &&& el.tags@.len() == e.variants@.len()
                &&& forall|k: int|
                    0 <= k < e.variants@.len() ==> #[trigger] el.tags@[k] as nat == derived_tags(
                        e.variants@,
                    )[k] % pow256(8)
            },
            _ => false,
        },
    }
}

/// Computes a struct descriptor's layout: the total width and each field's
/// offset. Fails exactly when the total width cannot be represented.
pub fn compute_struct_layout(fields: &Vec<FieldDesc>) -> (r: Result<StructLayout, CodecError>)
    ensures
        r is Ok <==> size_of(TypeDesc::Struct(*fields)) <= usize::MAX,
        r is Ok ==> is_layout_of(TypeDesc::Struct(*fields), Layout::Struct(r->Ok_0)),
        r is Err ==> r->Err_0 == CodecError::MalformedDescriptor,
{
    let ghost t = TypeDesc::Struct(*fields);
    let mut offsets: Vec<usize> = Vec::new();
    let mut acc: usize = 0;
    let mut i: usize = 0;
    while i < fields.len()
        invariant
            t == TypeDesc::Struct(*fields),
            i <= fields@.len(),
            offsets@.len() == i,
            acc == struct_offset(t, i as int),
            forall|k: int| 0 <= k < i ==> #[trigger] offsets@[k] == struct_offset(t, k),
        decreases fields@.len() - i,
    {
        proof {
            lemma_offset_plus_suffix(t, i as int);
            lemma_suffix_ge_field(t, i as int);
        }
        offsets.push(acc);
        let fs = match total_size(&fields[i].ty) {
            Ok(s) => s,
            Err(e) => {
                return Err(e);
            },
        };
        acc = match acc.checked_add(fs) {
            Some(a) => a,
            None => {
                return Err(CodecError::MalformedDescriptor);
            },
        };
        i += 1;
    }
    proof {
        lemma_offset_plus_suffix(t, i as int);
    }
    Ok(StructLayout { total_size: acc, offsets })
}

/// Computes an enum descriptor's layout: the total width (tag plus widest
/// payload), the tag width, and every variant's derived tag. Fails exactly
/// when the total width cannot be represented.
pub fn compute_enum_layout(repr: ReprWidth, variants: &Vec<VariantDesc>) -> (r: Result<
    EnumLayout,
    CodecError,
>)
    ensures
        r is Ok <==> size_of(TypeDesc::Enum(EnumDesc { repr, variants: *variants }))
            <= usize::MAX,
        r is Ok ==> is_layout_of(
            TypeDesc::Enum(EnumDesc { repr, variants: *variants }),
            Layout::Enum(r->Ok_0),
        ),
        r is Err ==> r->Err_0 == CodecError::MalformedDescriptor,
{
    let ghost t = TypeDesc::Enum(EnumDesc { repr, variants: *variants });
    let tags = tag_values(variants);
    let mut widest: usize = 0;
    let mut i: usize = 0;
    while i < variants.len()
        invariant
            t == TypeDesc::Enum(EnumDesc { repr, variants: *variants }),
            i <= variants@.len(),
            max_payload_from(t, 0) == (if widest as nat >= max_payload_from(t, i as int) {
                widest as nat
            } else {
                max_payload_from(t, i as int)
            }),
        decreases variants@.len() - i,
    {
        match &variants[i].payload {
            Some(p) => {
                let ps = match total_size(p) {
                    Ok(s) => s,
                    Err(err) => {
                        return Err(err);
                    },
                };
                if ps > widest {
                    widest = ps;
                }
            },
            None => {},
        }
        i += 1;
    }
    match repr.size().checked_add(widest) {
        Some(total) => Ok(EnumLayout { total_size: total, tag_width: repr.size(), tags }),
        None => Err(CodecError::MalformedDescriptor),
    }
}

/// Computes the layout of any descriptor; see [`compute_struct_layout`] and
/// [`compute_enum_layout`]. Fails exactly when the total width cannot be
/// represented.
pub fn layout_of(t: &TypeDesc) -> (r: Result<Layout, CodecError>)
    ensures
        r is Ok <==> size_of(*t) <= usize::MAX,
        r is Ok ==> is_layout_of(*t, r->Ok_0),
        r is Err ==> r->Err_0 == CodecError::MalformedDescriptor,
{
    match t {
        TypeDesc::Prim(p) => Ok(Layout::Prim { total_size: p.size() }),
        TypeDesc::Struct(fields) => match compute_struct_layout(fields) {
            Ok(sl) => Ok(Layout::Struct(sl)),
            Err(e) => Err(e),
        },
        TypeDesc::Enum(e) => match compute_enum_layout(e.repr, &e.variants) {
            Ok(el) => Ok(Layout::Enum(el)),
            Err(err) => Err(err),
        },
    }
}

/// The layout is a pure function of the descriptor: any two layouts of the
/// same descriptor agree in every component.
pub proof fn lemma_layout_deterministic(t: TypeDesc, l1: Layout, l2: Layout)
    requires
        is_layout_of(t, l1),
        is_layout_of(t, l2),
    ensures
        l1.spec_total_size() == l2.spec_total_size(),
        l1 is Prim <==> l2 is Prim,
        l1 is Struct <==> l2 is Struct,
        l1 is Enum <==> l2 is Enum,
        l1 is Struct ==> l1->Struct_0.offsets@ =~= l2->Struct_0.offsets@,
        l1 is Enum ==> l1->Enum_0.tags@ =~= l2->Enum_0.tags@ && l1->Enum_0.tag_width
            == l2->Enum_0.tag_width,
{
}

} // verus!
