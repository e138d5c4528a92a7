//! Fixed-size records and their bytes.
//!
//! Everything that lives in an account page is a [`Record`]: a value with a fixed number of
//! bytes, integers in little-endian order, fields one after the other with no padding.
use vstd::bytes::{
    u128_from_le_bytes, u128_to_le_bytes, u16_from_le_bytes, u16_to_le_bytes, u32_from_le_bytes,
    u32_to_le_bytes, u64_from_le_bytes, u64_to_le_bytes,
};
use vstd::prelude::*;

verus! {

/// A value that is stored as a fixed number of bytes.
pub trait Record: Sized {
    /// The number of bytes of a value.
    spec fn spec_size() -> nat;

    /// The alignment that the address of a header of this type is given.
    spec fn spec_align() -> nat;

    /// The bytes of a value.
    spec fn encoded(&self) -> Seq<u8>;

    /// The value that some bytes stand for.
    spec fn decoded(bytes: Seq<u8>) -> Self;

    /// A value takes at least one byte and at most 256, and its alignment is at most 16.
    proof fn lemma_layout()
        ensures
            0 < Self::spec_size() <= 256,
            0 < Self::spec_align() <= 16,
    ;

    /// What is decoded from the bytes of a value is that value.
    proof fn lemma_round_trip(&self)
        ensures
            self.encoded().len() == Self::spec_size(),
            Self::decoded(self.encoded()) == *self,
    ;

    fn size_of() -> (r: usize)
        ensures
            r == Self::spec_size(),
    ;

    fn align_of() -> (r: usize)
        ensures
            r == Self::spec_align(),
    ;

    fn encode(&self) -> (r: Vec<u8>)
        ensures
            r@ == self.encoded(),
    ;

    fn decode(bytes: &[u8]) -> (r: Self)
        requires
            bytes@.len() == Self::spec_size(),
        ensures
            r == Self::decoded(bytes@),
    ;
}

pub open spec fn u16_at(bytes: Seq<u8>, at: int) -> u16 {
    vstd::bytes::spec_u16_from_le_bytes(bytes.subrange(at, at + 2))
}

pub open spec fn u32_at(bytes: Seq<u8>, at: int) -> u32 {
    vstd::bytes::spec_u32_from_le_bytes(bytes.subrange(at, at + 4))
}

pub open spec fn u64_at(bytes: Seq<u8>, at: int) -> u64 {
    vstd::bytes::spec_u64_from_le_bytes(bytes.subrange(at, at + 8))
}

pub open spec fn u128_at(bytes: Seq<u8>, at: int) -> u128 {
    vstd::bytes::spec_u128_from_le_bytes(bytes.subrange(at, at + 16))
}

pub open spec fn u16_bytes(x: u16) -> Seq<u8> {
    vstd::bytes::spec_u16_to_le_bytes(x)
}

pub open spec fn u32_bytes(x: u32) -> Seq<u8> {
    vstd::bytes::spec_u32_to_le_bytes(x)
}

pub open spec fn u64_bytes(x: u64) -> Seq<u8> {
    vstd::bytes::spec_u64_to_le_bytes(x)
}

pub open spec fn u128_bytes(x: u128) -> Seq<u8> {
    vstd::bytes::spec_u128_to_le_bytes(x)
}

/// Integers come back from their bytes, whatever stands before and after them.
pub proof fn lemma_integers()
    ensures
        forall|x: u16| #[trigger] u16_bytes(x).len() == 2,
        forall|x: u32| #[trigger] u32_bytes(x).len() == 4,
        forall|x: u64| #[trigger] u64_bytes(x).len() == 8,
        forall|x: u128| #[trigger] u128_bytes(x).len() == 16,
        forall|x: u16, s: Seq<u8>, at: int|
            #![trigger u16_at(s, at), u16_bytes(x)]
            s.subrange(at, at + 2) == u16_bytes(x) ==> u16_at(s, at) == x,
        forall|x: u32, s: Seq<u8>, at: int|
            #![trigger u32_at(s, at), u32_bytes(x)]
            s.subrange(at, at + 4) == u32_bytes(x) ==> u32_at(s, at) == x,
        forall|x: u64, s: Seq<u8>, at: int|
            #![trigger u64_at(s, at), u64_bytes(x)]
            s.subrange(at, at + 8) == u64_bytes(x) ==> u64_at(s, at) == x,
        forall|x: u128, s: Seq<u8>, at: int|
            #![trigger u128_at(s, at), u128_bytes(x)]
            s.subrange(at, at + 16) == u128_bytes(x) ==> u128_at(s, at) == x,
{
    vstd::bytes::lemma_auto_spec_u16_to_from_le_bytes();
    vstd::bytes::lemma_auto_spec_u32_to_from_le_bytes();
    vstd::bytes::lemma_auto_spec_u64_to_from_le_bytes();
    vstd::bytes::lemma_auto_spec_u128_to_from_le_bytes();
    assert forall|x: u16, s: Seq<u8>, at: int|
        #![trigger u16_at(s, at), u16_bytes(x)]
        s.subrange(at, at + 2) == u16_bytes(x) implies u16_at(s, at) == x by {
        assert(vstd::bytes::spec_u16_to_le_bytes(x).len() == 2);
    }
    assert forall|x: u32, s: Seq<u8>, at: int|
        #![trigger u32_at(s, at), u32_bytes(x)]
        s.subrange(at, at + 4) == u32_bytes(x) implies u32_at(s, at) == x by {
        assert(vstd::bytes::spec_u32_to_le_bytes(x).len() == 4);
    }
    assert forall|x: u64, s: Seq<u8>, at: int|
        #![trigger u64_at(s, at), u64_bytes(x)]
        s.subrange(at, at + 8) == u64_bytes(x) implies u64_at(s, at) == x by {
        assert(vstd::bytes::spec_u64_from_le_bytes(u64_bytes(x)) == x);
    }
    assert forall|x: u128, s: Seq<u8>, at: int|
        #![trigger u128_at(s, at), u128_bytes(x)]
        s.subrange(at, at + 16) == u128_bytes(x) implies u128_at(s, at) == x by {
        assert(vstd::bytes::spec_u128_to_le_bytes(x).len() == 16);
    }
}

pub fn read_u16(bytes: &[u8], at: usize) -> (r: u16)
    requires
        at + 2 <= bytes.len(),
    ensures
        r == u16_at(bytes@, at as int),
{
    u16_from_le_bytes(vstd::slice::slice_subrange(bytes, at, at + 2))
}

pub fn read_u32(bytes: &[u8], at: usize) -> (r: u32)
    requires
        at + 4 <= bytes.len(),
    ensures
        r == u32_at(bytes@, at as int),
{
    u32_from_le_bytes(vstd::slice::slice_subrange(bytes, at, at + 4))
}

pub fn read_u64(bytes: &[u8], at: usize) -> (r: u64)
    requires
        at + 8 <= bytes.len(),
    ensures
        r == u64_at(bytes@, at as int),
{
    u64_from_le_bytes(vstd::slice::slice_subrange(bytes, at, at + 8))
}

pub fn read_u128(bytes: &[u8], at: usize) -> (r: u128)
    requires
        at + 16 <= bytes.len(),
    ensures
        r == u128_at(bytes@, at as int),
{
    u128_from_le_bytes(vstd::slice::slice_subrange(bytes, at, at + 16))
}

pub fn push_u16(out: &mut Vec<u8>, x: u16)
    ensures
        final(out)@ == old(out)@ + u16_bytes(x),
{
    let mut b = u16_to_le_bytes(x);
    out.append(&mut b);
}

pub fn push_u32(out: &mut Vec<u8>, x: u32)
    ensures
        final(out)@ == old(out)@ + u32_bytes(x),
{
    let mut b = u32_to_le_bytes(x);
    out.append(&mut b);
}

pub fn push_u64(out: &mut Vec<u8>, x: u64)
    ensures
        final(out)@ == old(out)@ + u64_bytes(x),
{
    let mut b = u64_to_le_bytes(x);
    out.append(&mut b);
}

pub fn push_u128(out: &mut Vec<u8>, x: u128)
    ensures
        final(out)@ == old(out)@ + u128_bytes(x),
{
    let mut b = u128_to_le_bytes(x);
    out.append(&mut b);
}

pub open spec fn i64_bytes(x: i64) -> Seq<u8> {
    u64_bytes(x as u64)
}

pub open spec fn i64_at(bytes: Seq<u8>, at: int) -> i64 {
    u64_at(bytes, at) as i64
}

/// A signed number comes back from its bytes.
pub proof fn lemma_i64(x: i64, s: Seq<u8>, at: int)
    requires
        s.subrange(at, at + 8) == i64_bytes(x),
    ensures
        i64_at(s, at) == x,
        i64_bytes(x).len() == 8,
{
    lemma_integers();
    assert(u64_bytes(x as u64).len() == 8);
    assert(u64_at(s, at) == x as u64);
    assert((x as u64) as i64 == x) by (bit_vector);
}

pub fn read_i64(bytes: &[u8], at: usize) -> (r: i64)
    requires
        at + 8 <= bytes.len(),
    ensures
        r == i64_at(bytes@, at as int),
{
    read_u64(bytes, at) as i64
}

pub fn push_i64(out: &mut Vec<u8>, x: i64)
    ensures
        final(out)@ == old(out)@ + i64_bytes(x),
{
    push_u64(out, x as u64);
}

} // verus!
