//! The host interface of a universe: a pointer and a length packed in one
//! 64-bit word, the manifest a universe declares, and the trait a universe
//! implements.
use vstd::prelude::*;

verus! {

/// A pointer (high 32 bits) and a length (low 32 bits) in one word.
pub open spec fn packed(ptr: u32, len: u32) -> int {
    ptr * 0x1_0000_0000 + len
}

/// Packs a pointer and a length: the pointer in the high 32 bits, the
/// length in the low 32 bits.
pub fn pack(ptr: u32, len: u32) -> (r: u64)
    ensures
        r == packed(ptr, len),
{
    let r = ((ptr as u64) << 32u64) | (len as u64);
    assert(((ptr as u64) << 32u64) | (len as u64) == ptr * 0x1_0000_0000 + len) by (bit_vector);
    r
}

/// Splits a packed word into its pointer (high 32 bits) and length (low 32
/// bits).
pub fn unpack(pl: u64) -> (r: (u32, u32))
    ensures
        r.0 == pl / 0x1_0000_0000,
        r.1 == pl % 0x1_0000_0000,
{
    let hi = pl >> 32u64;
    let lo = pl & 0xFFFF_FFFFu64;
    assert(pl >> 32u64 == pl / 0x1_0000_0000 && pl & 0xFFFF_FFFFu64 == pl % 0x1_0000_0000)
        by (bit_vector);
    (hi as u32, lo as u32)
}

/// Unpacking a packed word gives back the pointer and the length.
pub proof fn lemma_pack_unpack(ptr: u32, len: u32)
    ensures
        packed(ptr, len) / 0x1_0000_0000 == ptr,
        packed(ptr, len) % 0x1_0000_0000 == len,
{
    assert(packed(ptr, len) / 0x1_0000_0000 == ptr && packed(ptr, len) % 0x1_0000_0000 == len)
        by (nonlinear_arith);
}

/// What a universe declares about itself to the host.
#[derive(Debug, Clone)]
pub struct UniverseManifest {
    pub name: String,
    pub version: String,
    pub api_version: u32,
    pub max_players: u32,
    pub capabilities: Vec<String>,
}

/// A universe as the host drives it: created from parameters, then fed one
/// input at a time, each answered with the new state.
pub trait Universe: Sized {
    fn create(params: &str) -> Self;

    fn tick(&mut self, input: &str) -> String;

    fn manifest() -> UniverseManifest;
}

} // verus!
