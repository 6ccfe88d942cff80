use tiny_serde::codec::{decode, encode, EnumValue, Value};
use tiny_serde::descriptor::{
    CodecError, EnumDesc, FieldDesc, PrimType, ReprWidth, TypeDesc, VariantDesc,
};
use tiny_serde::layout::{
    compute_enum_layout, compute_struct_layout, is_well_formed, layout_of, Layout,
};

fn field(name: &str, ty: TypeDesc) -> FieldDesc {
    FieldDesc {
        name: name.to_string(),
        ty,
    }
}

fn variant(name: &str, discriminant: Option<u64>, payload: Option<TypeDesc>) -> VariantDesc {
    VariantDesc {
        name: name.to_string(),
        discriminant,
        payload,
    }
}

/// struct Foo { a: bool, b: u16 }
fn foo_desc() -> TypeDesc {
    TypeDesc::Struct(vec![
        field("a", TypeDesc::Prim(PrimType::Bool)),
        field("b", TypeDesc::Prim(PrimType::U16)),
    ])
}

fn foo_value(a: bool, b: u16) -> Value {
    Value::Struct(vec![Value::Bool(a), Value::U16(b)])
}

/// #[repr(u16)] enum Eenie { A = 0xde, B, C, D = 0xff, E }
fn eenie_desc() -> TypeDesc {
    TypeDesc::Enum(EnumDesc {
        repr: ReprWidth::W2,
        variants: vec![
            variant("A", Some(0xde), None),
            variant("B", None, None),
            variant("C", None, None),
            variant("D", Some(0xff), None),
            variant("E", None, None),
        ],
    })
}

/// #[repr(u8)] enum Meenie { A, B { val: bool } = 0x10, C(u16) }
fn meenie_desc() -> TypeDesc {
    TypeDesc::Enum(EnumDesc {
        repr: ReprWidth::W1,
        variants: vec![
            variant("A", None, None),
            variant("B", Some(0x10), Some(TypeDesc::Prim(PrimType::Bool))),
            variant("C", None, Some(TypeDesc::Prim(PrimType::U16))),
        ],
    })
}

fn unit_variant(index: usize) -> Value {
    Value::Enum(EnumValue {
        variant: index,
        payload: None,
    })
}

fn payload_variant(index: usize, payload: Value) -> Value {
    Value::Enum(EnumValue {
        variant: index,
        payload: Some(Box::new(payload)),
    })
}

/// struct Bar { something: u16, foo: Foo, other: Eenie, another: Meenie, lastly: Meenie }
fn bar_desc() -> TypeDesc {
    TypeDesc::Struct(vec![
        field("something", TypeDesc::Prim(PrimType::U16)),
        field("foo", foo_desc()),
        field("other", eenie_desc()),
        field("another", meenie_desc()),
        field("lastly", meenie_desc()),
    ])
}

fn bar_value() -> Value {
    Value::Struct(vec![
        Value::U16(0x10),
        foo_value(false, 0x100),
        unit_variant(1),                           // Eenie::B
        payload_variant(2, Value::U16(300)),       // Meenie::C(300)
        unit_variant(0),                           // Meenie::A
    ])
}

#[test]
fn derive() {
    let bar = bar_value();
    let desc = bar_desc();

    let buf = encode(&bar, &desc).unwrap();

    assert_eq!(
        buf,
        vec![0x0, 0x10, 0x0, 0x1, 0x0, 0x00, 0xdf, 0x11, 0x1, 0x2c, 0x0, 0x0, 0x0]
    );

    if let Ok(debar) = decode(&buf, &desc) {
        assert_eq!(bar, debar);
    }
}

#[test]
fn proc_macros() {
    let bar = bar_value();
    let desc = bar_desc();

    let buf = encode(&bar, &desc).unwrap();

    assert_eq!(
        buf,
        vec![0x0, 0x10, 0x0, 0x1, 0x0, 0x00, 0xdf, 0x11, 0x1, 0x2c, 0x0, 0x0, 0x0]
    );

    if let Ok(debar) = decode(&buf, &desc) {
        assert_eq!(bar, debar);
    }
}

/// Tags continue counting up from the last explicit discriminant.
#[test]
fn tag_continuation() {
    let desc = eenie_desc();
    match layout_of(&desc).unwrap() {
        Layout::Enum(el) => {
            assert_eq!(el.total_size, 2);
            assert_eq!(el.tag_width, 2);
            assert_eq!(el.tags, vec![0xde, 0xdf, 0xe0, 0xff, 0x100]);
        }
        other => panic!("expected an enum layout, got {:?}", other),
    }
}

/// Boundary scenario: Foo { a: false, b: 0x100 } encodes byte-exactly.
#[test]
fn boundary_foo() {
    let buf = encode(&foo_value(false, 0x100), &foo_desc()).unwrap();
    assert_eq!(buf, vec![0x00, 0x01, 0x00]);
}

/// Nested scenario: Meenie::C(300) takes the continuation tag 0x11 after
/// B's explicit 0x10, followed by the big-endian payload.
#[test]
fn nested_meenie() {
    let desc = meenie_desc();
    let value = payload_variant(2, Value::U16(300));
    let buf = encode(&value, &desc).unwrap();
    assert_eq!(buf, vec![0x11, 0x01, 0x2c]);
    assert_eq!(decode(&buf, &desc), Ok(payload_variant(2, Value::U16(300))));
}

/// A smaller payload leaves the shared region's tail zero-filled.
#[test]
fn payload_zero_fill() {
    let desc = meenie_desc();
    let buf = encode(&payload_variant(1, Value::Bool(true)), &desc).unwrap();
    assert_eq!(buf, vec![0x10, 0x01, 0x00]);
    let no_payload = encode(&unit_variant(0), &desc).unwrap();
    assert_eq!(no_payload, vec![0x00, 0x00, 0x00]);
}

/// A tag matching no variant is rejected.
#[test]
fn unknown_tag() {
    let desc = meenie_desc();
    assert_eq!(
        decode(&[0x05, 0x00, 0x00], &desc),
        Err(CodecError::UnknownTag)
    );
    let eenie = eenie_desc();
    assert_eq!(decode(&[0x00, 0x00], &eenie), Err(CodecError::UnknownTag));
}

/// A boolean byte outside {0, 1} fails, and the field's error propagates
/// out of the struct decode unmodified.
#[test]
fn invalid_bool_propagates() {
    let desc = foo_desc();
    assert_eq!(
        decode(&[0x02, 0x01, 0x00], &desc),
        Err(CodecError::InvalidScalar)
    );
}

/// A value that does not conform to the descriptor is refused before any
/// byte is produced.
#[test]
fn mismatched_value_refused() {
    assert_eq!(
        encode(&Value::U8(1), &TypeDesc::Prim(PrimType::U16)),
        Err(CodecError::MalformedDescriptor)
    );
    assert_eq!(
        encode(&unit_variant(3), &meenie_desc()),
        Err(CodecError::MalformedDescriptor)
    );
    assert_eq!(
        encode(&payload_variant(0, Value::U8(1)), &meenie_desc()),
        Err(CodecError::MalformedDescriptor)
    );
}

/// Struct sizes add up; field offsets are the running sums.
#[test]
fn struct_size_additive() {
    let fields = vec![
        field("x", TypeDesc::Prim(PrimType::U32)),
        field("y", TypeDesc::Prim(PrimType::Bool)),
        field("z", TypeDesc::Prim(PrimType::U64)),
    ];
    let sl = compute_struct_layout(&fields).unwrap();
    assert_eq!(sl.total_size, 4 + 1 + 8);
    assert_eq!(sl.offsets, vec![0, 4, 5]);
}

/// Enum size is the tag width plus the widest payload (0 without payloads).
#[test]
fn enum_size() {
    let el = compute_enum_layout(
        ReprWidth::W1,
        &vec![
            variant("A", None, None),
            variant("B", Some(0x10), Some(TypeDesc::Prim(PrimType::Bool))),
            variant("C", None, Some(TypeDesc::Prim(PrimType::U16))),
        ],
    )
    .unwrap();
    assert_eq!(el.total_size, 1 + 2);
    assert_eq!(el.tag_width, 1);

    let bare = compute_enum_layout(ReprWidth::W8, &vec![variant("Only", None, None)]).unwrap();
    assert_eq!(bare.total_size, 8);
}

/// The layout is a pure function of the descriptor: recomputing it yields
/// identical results.
#[test]
fn layout_idempotent() {
    assert_eq!(layout_of(&bar_desc()), layout_of(&bar_desc()));
    assert_eq!(layout_of(&meenie_desc()), layout_of(&meenie_desc()));
}

/// An empty struct occupies no bytes and round-trips.
#[test]
fn empty_struct() {
    let desc = TypeDesc::Struct(vec![]);
    match layout_of(&desc).unwrap() {
        Layout::Struct(sl) => assert_eq!(sl.total_size, 0),
        other => panic!("expected a struct layout, got {:?}", other),
    }
    let buf = encode(&Value::Struct(vec![]), &desc).unwrap();
    assert_eq!(buf, Vec::<u8>::new());
    assert_eq!(decode(&buf, &desc), Ok(Value::Struct(vec![])));
}

/// IEEE-754 leaves are carried as raw bit patterns with the unsigned wire
/// format of the same width.
#[test]
fn float_bits() {
    let desc = TypeDesc::Prim(PrimType::F32);
    let bits = 1.5f32.to_bits();
    let buf = encode(&Value::F32Bits(bits), &desc).unwrap();
    assert_eq!(buf, 1.5f32.to_be_bytes().to_vec());
    assert_eq!(decode(&buf, &desc), Ok(Value::F32Bits(bits)));
}

/// With duplicate tags (a malformed descriptor) decoding is ambiguous and
/// resolves to the first declared match.
#[test]
fn duplicate_tags_first_match() {
    let desc = TypeDesc::Enum(EnumDesc {
        repr: ReprWidth::W1,
        variants: vec![variant("A", Some(5), None), variant("B", Some(5), None)],
    });
    assert_eq!(decode(&[0x05], &desc), Ok(unit_variant(0)));
}

/// Decode reads only the active payload's bytes; trailing bytes of the
/// shared region are not re-validated.
#[test]
fn padding_not_revalidated() {
    let desc = meenie_desc();
    assert_eq!(
        decode(&[0x10, 0x01, 0xab], &desc),
        Ok(payload_variant(1, Value::Bool(true)))
    );
}

/// Well-formedness: every tag fits its representation width and no two
/// variants share a tag; such descriptors are the ones the round-trip
/// guarantee covers.
#[test]
fn well_formedness() {
    assert!(is_well_formed(&bar_desc()));
    assert!(is_well_formed(&eenie_desc()));

    // B's continuation tag 6 collides with C's explicit 6.
    let duplicate = TypeDesc::Enum(EnumDesc {
        repr: ReprWidth::W1,
        variants: vec![
            variant("A", Some(5), None),
            variant("B", None, None),
            variant("C", Some(6), None),
        ],
    });
    assert!(!is_well_formed(&duplicate));

    // 0x100 does not fit a 1-byte tag.
    let oversized = TypeDesc::Enum(EnumDesc {
        repr: ReprWidth::W1,
        variants: vec![variant("A", Some(0x100), None)],
    });
    assert!(!is_well_formed(&oversized));

    // A nested descriptor's flaw surfaces at the top.
    let nested = TypeDesc::Struct(vec![field("inner", oversized)]);
    assert!(!is_well_formed(&nested));
}

/// Signed fields round-trip through their two's-complement encoding.
#[test]
fn signed_fields_roundtrip() {
    let desc = TypeDesc::Struct(vec![
        field("a", TypeDesc::Prim(PrimType::I8)),
        field("b", TypeDesc::Prim(PrimType::I64)),
    ]);
    let value = Value::Struct(vec![Value::I8(-5), Value::I64(i64::MIN)]);
    let buf = encode(&value, &desc).unwrap();
    assert_eq!(buf.len(), 9);
    assert_eq!(buf[0], 0xfb);
    assert_eq!(
        decode(&buf, &desc),
        Ok(Value::Struct(vec![Value::I8(-5), Value::I64(i64::MIN)]))
    );
}
