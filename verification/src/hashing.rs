//! The SCALE encoding of plain values and the Blake2 hash of bytes.
//!
//! Both are computed by the outside crates that the chain uses: the encoding by
//! `parity-scale-codec`, the hash by `sp-core`. The functions here are the only
//! places where those crates are called.
use parity_scale_codec::{Decode, Encode};
use sp_core::Hasher;
use vstd::prelude::*;

verus! {

/// The little-endian bytes of `x`, `n` of them.
pub open spec fn le_bytes(x: nat, n: nat) -> Seq<u8>
    decreases n,
{
    if n == 0 {
        Seq::empty()
    } else {
        seq![(x % 256) as u8] + le_bytes(x / 256, (n - 1) as nat)
    }
}

/// The 256-bit Blake2b hash of some bytes, as `sp_core::Blake2Hasher` computes it.
pub uninterp spec fn blake2_256_of(data: Seq<u8>) -> Seq<u8>;

/// The SCALE compact encoding of a number below 2^32: one, two or four little-endian
/// bytes holding the number shifted left by two and the mode in the low bits, or a
/// mode byte followed by the four bytes of the number.
pub open spec fn compact_u32(n: nat) -> Seq<u8> {
    if n < 64 {
        le_bytes(n * 4, 1)
    } else if n < 16384 {
        le_bytes(n * 4 + 1, 2)
    } else if n < 1073741824 {
        le_bytes(n * 4 + 2, 4)
    } else {
        seq![3u8] + le_bytes(n, 4)
    }
}

/// The SCALE encoding of a byte string: its length in compact form, then the bytes.
pub open spec fn scale_bytes(data: Seq<u8>) -> Seq<u8> {
    compact_u32(data.len()) + data
}

/// `<sp_core::Blake2Hasher as Hasher>::hash`: the Blake2b-256 hash of the bytes.
/// The contract says that the 32 bytes are a function of the input alone; which
/// function it is, is not stated.
#[verifier::external_body]
pub(crate) fn blake2_256(data: &[u8]) -> (r: [u8; 32])
    ensures
        r@ == blake2_256_of(data@),
{
    <sp_core::Blake2Hasher as Hasher>::hash(data).0
}

/// `Encode::encode` on a `u64`: SCALE encodes a fixed-width integer as its
/// little-endian bytes.
#[verifier::external_body]
pub(crate) fn encode_u64(x: u64) -> (r: Vec<u8>)
    ensures
        r@ == le_bytes(x as nat, 8),
{
    x.encode()
}

/// `Encode::encode` on a `u32`: its four little-endian bytes.
#[verifier::external_body]
pub(crate) fn encode_u32(x: u32) -> (r: Vec<u8>)
    ensures
        r@ == le_bytes(x as nat, 4),
{
    x.encode()
}

/// `Encode::encode` on a byte string (`Vec<u8>`): the length as a `Compact<u32>`,
/// then the bytes. The encoder panics on a string longer than `u32::MAX`.
#[verifier::external_body]
pub(crate) fn encode_bytes(data: &Vec<u8>) -> (r: Vec<u8>)
    requires
        data@.len() <= u32::MAX,
    ensures
        r@ == scale_bytes(data@),
{
    data.encode()
}

/// `<u64 as Decode>::decode`: reads a `u64` from the first eight bytes, little-endian;
/// fails when there are fewer than eight.
#[verifier::external_body]
pub(crate) fn decode_u64(data: &[u8]) -> (r: Option<u64>)
    ensures
        r is Some <==> data@.len() >= 8,
        r matches Some(v) ==> le_bytes(v as nat, 8) == data@.subrange(0, 8),
{
    u64::decode(&mut &data[..]).ok()
}

/// The hash of some bytes as an array of 32 bytes.
pub open spec fn hash_of_bytes(data: Seq<u8>) -> [u8; 32] {
    choose|h: [u8; 32]| h@ == blake2_256_of(data)
}

/// Hashes bytes into an array.
pub fn hash_bytes(data: &[u8]) -> (h: [u8; 32])
    ensures
        h == hash_of_bytes(data@),
        h@ == blake2_256_of(data@),
{
    let h = blake2_256(data);
    proof {
        let c = hash_of_bytes(data@);
        assert(c@ == blake2_256_of(data@));
        assert(c =~= h) by {
            assert forall|i: int| 0 <= i < 32 implies c[i] == h[i] by {
                assert(c@[i] == h@[i]);
            }
        }
    }
    h
}

/// Appends the bytes of `src` to `dst`.
pub fn append_bytes(dst: &mut Vec<u8>, src: &Vec<u8>)
    ensures
        final(dst)@ == old(dst)@ + src@,
{
    let mut i: usize = 0;
    while i < src.len()
        invariant
            i <= src@.len(),
            dst@ == old(dst)@ + src@.take(i as int),
        decreases src@.len() - i,
    {
        dst.push(src[i]);
        assert(src@.take(i as int + 1) =~= src@.take(i as int).push(src@[i as int]));
        i += 1;
    }
    assert(src@.take(i as int) =~= src@);
}

/// Appends the bytes of an array to `dst`.
pub fn append_array(dst: &mut Vec<u8>, src: &[u8; 32])
    ensures
        final(dst)@ == old(dst)@ + src@,
{
    let mut i: usize = 0;
    while i < 32
        invariant
            i <= 32,
            src@.len() == 32,
            dst@ == old(dst)@ + src@.take(i as int),
        decreases 32 - i,
    {
        dst.push(src[i]);
        assert(src@.take(i as int + 1) =~= src@.take(i as int).push(src@[i as int]));
        i += 1;
    }
    assert(src@.take(i as int) =~= src@);
}

} // verus!
