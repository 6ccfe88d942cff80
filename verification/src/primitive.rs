//! The primitive codec: fixed-width big-endian serialization for the scalar
//! leaf types, as two traits over the scalar's exact byte width.
//!
//! Integers are written big-endian two's-complement; booleans as one byte,
//! 0 for false and 1 for true. Decoding an integer never fails (every byte
//! pattern is a value); decoding a boolean byte outside {0, 1} fails.

use vstd::prelude::*;
use crate::bytes::{be_bytes, be_val, be_val_exec, lemma_be_val_bound, pow256};

verus! {

/// Types that serialize into exactly `N` bytes.
pub trait Serialize<const N: usize>: Sized {
    /// The bytes this value serializes to.
    spec fn spec_serialized(self) -> Seq<u8>;

    /// Serializes the passed instance of this type (move).
    fn serialize(self) -> (r: [u8; N])
        ensures
            r@ == self.spec_serialized(),
    ;
}

/// Types that deserialize from exactly `N` bytes.
pub trait Deserialize<const N: usize>: Sized {
    /// The value (or error) these bytes deserialize to.
    spec fn spec_deserialized(data: Seq<u8>) -> Result<Self, ()>;

    /// Creates an instance of this type from the provided data (move).
    fn deserialize(data: [u8; N]) -> (r: Result<Self, ()>)
        ensures
            r == Self::spec_deserialized(data@),
    ;
}

impl Serialize<1> for u8 {
    open spec fn spec_serialized(self) -> Seq<u8> {
        be_bytes(self as nat, 1)
    }

    fn serialize(self) -> (r: [u8; 1]) {
        let r = [self];
        proof {
            reveal_with_fuel(be_bytes, 2);
            assert(r@ =~= be_bytes(self as nat, 1));
        }
        r
    }
}

impl Deserialize<1> for u8 {
    open spec fn spec_deserialized(data: Seq<u8>) -> Result<Self, ()> {
        Ok(be_val(data) as u8)
    }

    fn deserialize(data: [u8; 1]) -> (r: Result<Self, ()>) {
        proof {
            reveal_with_fuel(pow256, 2);
            lemma_be_val_bound(data@);
        }
        Ok(be_val_exec(data.as_slice()) as u8)
    }
}

impl Serialize<1> for i8 {
    open spec fn spec_serialized(self) -> Seq<u8> {
        be_bytes((self as u8) as nat, 1)
    }

    fn serialize(self) -> (r: [u8; 1]) {
        let r = [#[verifier::truncate] (self as u8)];
        proof {
            reveal_with_fuel(be_bytes, 2);
            assert(r@ =~= be_bytes((self as u8) as nat, 1));
        }
        r
    }
}

impl Deserialize<1> for i8 {
    open spec fn spec_deserialized(data: Seq<u8>) -> Result<Self, ()> {
        Ok(be_val(data) as u8 as i8)
    }

    fn deserialize(data: [u8; 1]) -> (r: Result<Self, ()>) {
        proof {
            reveal_with_fuel(pow256, 2);
            lemma_be_val_bound(data@);
        }
        Ok(#[verifier::truncate] ((be_val_exec(data.as_slice()) as u8) as i8))
    }
}

impl Serialize<2> for u16 {
    open spec fn spec_serialized(self) -> Seq<u8> {
        be_bytes(self as nat, 2)
    }

    fn serialize(self) -> (r: [u8; 2]) {
        let v1 = self / 256;
        let r = [(v1 % 256) as u8, (self % 256) as u8];
        proof {
            reveal_with_fuel(be_bytes, 3);
            assert(r@ =~= be_bytes(self as nat, 2));
        }
        r
    }
}

impl Deserialize<2> for u16 {
    open spec fn spec_deserialized(data: Seq<u8>) -> Result<Self, ()> {
        Ok(be_val(data) as u16)
    }

    fn deserialize(data: [u8; 2]) -> (r: Result<Self, ()>) {
        proof {
            reveal_with_fuel(pow256, 3);
            lemma_be_val_bound(data@);
        }
        Ok(be_val_exec(data.as_slice()) as u16)
    }
}

impl Serialize<2> for i16 {
    open spec fn spec_serialized(self) -> Seq<u8> {
        be_bytes((self as u16) as nat, 2)
    }

    fn serialize(self) -> (r: [u8; 2]) {
        let u = #[verifier::truncate] (self as u16);
        let v1 = u / 256;
        let r = [(v1 % 256) as u8, (u % 256) as u8];
        proof {
            reveal_with_fuel(be_bytes, 3);
            assert(r@ =~= be_bytes((self as u16) as nat, 2));
        }
        r
    }
}

impl Deserialize<2> for i16 {
    open spec fn spec_deserialized(data: Seq<u8>) -> Result<Self, ()> {
        Ok(be_val(data) as u16 as i16)
    }

    fn deserialize(data: [u8; 2]) -> (r: Result<Self, ()>) {
        proof {
            reveal_with_fuel(pow256, 3);
            lemma_be_val_bound(data@);
        }
        Ok(#[verifier::truncate] ((be_val_exec(data.as_slice()) as u16) as i16))
    }
}

impl Serialize<4> for u32 {
    open spec fn spec_serialized(self) -> Seq<u8> {
        be_bytes(self as nat, 4)
    }

    fn serialize(self) -> (r: [u8; 4]) {
        let v1 = self / 256;
        let v2 = v1 / 256;
        let v3 = v2 / 256;
        let r = [(v3 % 256) as u8, (v2 % 256) as u8, (v1 % 256) as u8, (self % 256) as u8];
        proof {
            reveal_with_fuel(be_bytes, 5);
            assert(r@ =~= be_bytes(self as nat, 4));
        }
        r
    }
}

impl Deserialize<4> for u32 {
    open spec fn spec_deserialized(data: Seq<u8>) -> Result<Self, ()> {
        Ok(be_val(data) as u32)
    }

    fn deserialize(data: [u8; 4]) -> (r: Result<Self, ()>) {
        proof {
            reveal_with_fuel(pow256, 5);
            lemma_be_val_bound(data@);
        }
        Ok(be_val_exec(data.as_slice()) as u32)
    }
}

impl Serialize<4> for i32 {
    open spec fn spec_serialized(self) -> Seq<u8> {
        be_bytes((self as u32) as nat, 4)
    }

    fn serialize(self) -> (r: [u8; 4]) {
        let u = #[verifier::truncate] (self as u32);
        let v1 = u / 256;
        let v2 = v1 / 256;
        let v3 = v2 / 256;
        let r = [(v3 % 256) as u8, (v2 % 256) as u8, (v1 % 256) as u8, (u % 256) as u8];
        proof {
            reveal_with_fuel(be_bytes, 5);
            assert(r@ =~= be_bytes((self as u32) as nat, 4));
        }
        r
    }
}

impl Deserialize<4> for i32 {
    open spec fn spec_deserialized(data: Seq<u8>) -> Result<Self, ()> {
        Ok(be_val(data) as u32 as i32)
    }

    fn deserialize(data: [u8; 4]) -> (r: Result<Self, ()>) {
        proof {
            reveal_with_fuel(pow256, 5);
            lemma_be_val_bound(data@);
        }
        Ok(#[verifier::truncate] ((be_val_exec(data.as_slice()) as u32) as i32))
    }
}

impl Serialize<8> for u64 {
    open spec fn spec_serialized(self) -> Seq<u8> {
        be_bytes(self as nat, 8)
    }

    fn serialize(self) -> (r: [u8; 8]) {
        let v1 = self / 256;
        let v2 = v1 / 256;
        let v3 = v2 / 256;
        let v4 = v3 / 256;
        let v5 = v4 / 256;
        let v6 = v5 / 256;
        let v7 = v6 / 256;
        let r = [
            (v7 % 256) as u8,
            (v6 % 256) as u8,
            (v5 % 256) as u8,
            (v4 % 256) as u8,
            (v3 % 256) as u8,
            (v2 % 256) as u8,
            (v1 % 256) as u8,
            (self % 256) as u8,
        ];
        proof {
            reveal_with_fuel(be_bytes, 9);
            assert(r@ =~= be_bytes(self as nat, 8));
        }
        r
    }
}

impl Deserialize<8> for u64 {
    open spec fn spec_deserialized(data: Seq<u8>) -> Result<Self, ()> {
        Ok(be_val(data) as u64)
    }

    fn deserialize(data: [u8; 8]) -> (r: Result<Self, ()>) {
        proof {
            reveal_with_fuel(pow256, 9);
            lemma_be_val_bound(data@);
        }
        Ok(be_val_exec(data.as_slice()))
    }
}

impl Serialize<8> for i64 {
    open spec fn spec_serialized(self) -> Seq<u8> {
        be_bytes((self as u64) as nat, 8)
    }

    fn serialize(self) -> (r: [u8; 8]) {
        let u = #[verifier::truncate] (self as u64);
        let v1 = u / 256;
        let v2 = v1 / 256;
        let v3 = v2 / 256;
        let v4 = v3 / 256;
        let v5 = v4 / 256;
        let v6 = v5 / 256;
        let v7 = v6 / 256;
        let r = [
            (v7 % 256) as u8,
            (v6 % 256) as u8,
            (v5 % 256) as u8,
            (v4 % 256) as u8,
            (v3 % 256) as u8,
            (v2 % 256) as u8,
            (v1 % 256) as u8,
            (u % 256) as u8,
        ];
        proof {
            reveal_with_fuel(be_bytes, 9);
            assert(r@ =~= be_bytes((self as u64) as nat, 8));
        }
        r
    }
}

impl Deserialize<8> for i64 {
    open spec fn spec_deserialized(data: Seq<u8>) -> Result<Self, ()> {
        Ok(be_val(data) as u64 as i64)
    }

    fn deserialize(data: [u8; 8]) -> (r: Result<Self, ()>) {
        proof {
            reveal_with_fuel(pow256, 9);
            lemma_be_val_bound(data@);
        }
        Ok(#[verifier::truncate] (be_val_exec(data.as_slice()) as i64))
    }
}

impl Serialize<1> for bool {
    open spec fn spec_serialized(self) -> Seq<u8> {
        seq![if self { 1u8 } else { 0u8 }]
    }

    fn serialize(self) -> (r: [u8; 1]) {
        let r = [if self {
            1u8
        } else {
            0u8
        }];
        proof {
            assert(r@ =~= self.spec_serialized());
        }
        r
    }
}

impl Deserialize<1> for bool {
    open spec fn spec_deserialized(data: Seq<u8>) -> Result<Self, ()> {
        if data.len() == 1 && data[0] == 0 {
            Ok(false)
        } else if data.len() == 1 && data[0] == 1 {
            Ok(true)
        } else {
            Err(())
        }
    }

    fn deserialize(data: [u8; 1]) -> (r: Result<Self, ()>) {
        match data[0] {
            0 => Ok(false),
            1 => Ok(true),
            _ => Err(()),
        }
    }
}

} // verus!
