use tiny_serde::primitive::{Deserialize, Serialize};

#[test]
fn basic() {
    assert_eq!(128u8.serialize(), [0x80]);
    assert_eq!(
        u32::deserialize([0xde, 0xad, 0xbe, 0xef]),
        Ok(3_735_928_559)
    );
}

#[test]
fn unsigned_serialize_exact() {
    assert_eq!(0x1234u16.serialize(), [0x12, 0x34]);
    assert_eq!(1u32.serialize(), [0x00, 0x00, 0x00, 0x01]);
    assert_eq!(
        0x0102030405060708u64.serialize(),
        [0x01, 0x02, 0x03, 0x04, 0x05, 0x06, 0x07, 0x08]
    );
    assert_eq!(u64::MAX.serialize(), [0xff; 8]);
}

#[test]
fn signed_two_complement() {
    assert_eq!((-1i8).serialize(), [0xff]);
    assert_eq!((-2i16).serialize(), [0xff, 0xfe]);
    assert_eq!(i16::deserialize([0xff, 0xfe]), Ok(-2));
    assert_eq!(i32::deserialize([0x80, 0x00, 0x00, 0x00]), Ok(i32::MIN));
    assert_eq!((-1i64).serialize(), [0xff; 8]);
    assert_eq!(i64::deserialize([0xff; 8]), Ok(-1));
}

#[test]
fn unsigned_roundtrip() {
    assert_eq!(u8::deserialize(0xabu8.serialize()), Ok(0xab));
    assert_eq!(u16::deserialize(0xbeefu16.serialize()), Ok(0xbeef));
    assert_eq!(u32::deserialize(0xdeadbeefu32.serialize()), Ok(0xdeadbeef));
    assert_eq!(
        u64::deserialize(0xdeadbeefcafef00du64.serialize()),
        Ok(0xdeadbeefcafef00d)
    );
}

#[test]
fn bool_codec() {
    assert_eq!(false.serialize(), [0x00]);
    assert_eq!(true.serialize(), [0x01]);
    assert_eq!(bool::deserialize([0x00]), Ok(false));
    assert_eq!(bool::deserialize([0x01]), Ok(true));
    assert_eq!(bool::deserialize([0x02]), Err(()));
    assert_eq!(bool::deserialize([0xff]), Err(()));
}
