//! Fixed-width integers and magic numbers inside byte buffers.

use vstd::prelude::*;

verus! {

/// The byte order of a file.
#[derive(Debug, Clone, Copy, PartialEq, Eq, Structural)]
pub enum Endian {
    Big,
    Little,
}

/// The unsigned 16-bit number whose bytes, most significant first, stand at
/// `at` and `at + 1`.
pub open spec fn u16_be(s: Seq<u8>, at: int) -> int {
    s[at] * 256 + s[at + 1]
}

/// The unsigned 32-bit number whose bytes, most significant first, stand at
/// `at .. at + 4`.
pub open spec fn u32_be(s: Seq<u8>, at: int) -> int {
    s[at] * 16777216 + s[at + 1] * 65536 + s[at + 2] * 256 + s[at + 3]
}

/// The unsigned 32-bit number whose bytes, least significant first, stand at
/// `at .. at + 4`.
pub open spec fn u32_le(s: Seq<u8>, at: int) -> int {
    s[at + 3] * 16777216 + s[at + 2] * 65536 + s[at + 1] * 256 + s[at]
}

/// The unsigned 16-bit number whose bytes, least significant first, stand at
/// `at` and `at + 1`.
pub open spec fn u16_le(s: Seq<u8>, at: int) -> int {
    s[at + 1] * 256 + s[at]
}

/// The unsigned 32-bit number at `at` in the given byte order.
pub open spec fn u32_at(s: Seq<u8>, at: int, endian: Endian) -> int {
    match endian {
        Endian::Big => u32_be(s, at),
        Endian::Little => u32_le(s, at),
    }
}

/// The unsigned 16-bit number at `at` in the given byte order.
pub open spec fn u16_at(s: Seq<u8>, at: int, endian: Endian) -> int {
    match endian {
        Endian::Big => u16_be(s, at),
        Endian::Little => u16_le(s, at),
    }
}

/// `magic` stands in `s` at position `at`.
pub open spec fn has_magic(s: Seq<u8>, at: int, magic: Seq<u8>) -> bool {
    0 <= at && at + magic.len() <= s.len() && s.subrange(at, at + magic.len()) == magic
}

/// Reads the unsigned 32-bit number at `at`.
pub fn read_u32(s: &[u8], at: usize, endian: Endian) -> (r: u32)
    requires
        at + 4 <= s.len(),
    ensures
        r == u32_at(s@, at as int, endian),
{
    let b0: u32 = s[at] as u32;
    let b1: u32 = s[at + 1] as u32;
    let b2: u32 = s[at + 2] as u32;
    let b3: u32 = s[at + 3] as u32;
    match endian {
        Endian::Big => b0 * 16777216 + b1 * 65536 + b2 * 256 + b3,
        Endian::Little => b3 * 16777216 + b2 * 65536 + b1 * 256 + b0,
    }
}

/// Reads the unsigned 16-bit number at `at`.
pub fn read_u16(s: &[u8], at: usize, endian: Endian) -> (r: u16)
    requires
        at + 2 <= s.len(),
    ensures
        r == u16_at(s@, at as int, endian),
{
    let b0: u16 = s[at] as u16;
    let b1: u16 = s[at + 1] as u16;
    match endian {
        Endian::Big => b0 * 256 + b1,
        Endian::Little => b1 * 256 + b0,
    }
}

/// Whether the four bytes `magic` stand in `s` at position `at`.
pub fn magic_at(s: &[u8], at: usize, magic: [u8; 4]) -> (r: bool)
    ensures
        r == has_magic(s@, at as int, magic@),
{
    if s.len() < 4 || at > s.len() - 4 {
        return false;
    }
    let r = s[at] == magic[0] && s[at + 1] == magic[1] && s[at + 2] == magic[2] && s[at + 3]
        == magic[3];
    proof {
        let window = s@.subrange(at as int, at + 4);
        if r {
            assert(window =~= magic@);
        } else {
            assert(window[0] == s@[at as int]);
            assert(window[1] == s@[at + 1]);
            assert(window[2] == s@[at + 2]);
            assert(window[3] == s@[at + 3]);
        }
    }
    r
}

/// A copy of `s`.
pub fn copy_bytes(s: &[u8]) -> (r: Vec<u8>)
    ensures
        r@ == s@,
{
    let mut r: Vec<u8> = Vec::new();
    let mut i: usize = 0;
    while i < s.len()
        invariant
            i <= s.len(),
            r@ == s@.take(i as int),
        decreases s.len() - i,
    {
        r.push(s[i]);
        i += 1;
    }
    assert(s@.take(s.len() as int) =~= s@);
    r
}

/// `std::str::from_utf8` accepts exactly the valid UTF-8 sequences.
#[verifier::external_body]
pub(crate) fn is_utf8(bytes: &[u8]) -> (r: bool)
    ensures
        r == vstd::utf8::valid_utf8(bytes@),
{
    std::str::from_utf8(bytes).is_ok()
}

} // verus!
