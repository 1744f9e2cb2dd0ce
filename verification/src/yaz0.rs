//! Yaz0 compression.
//!
//! The codec itself is the `yaz0` crate, which is plain Rust: the codec that
//! `roead` offers behind its `yaz0` feature wraps a C++ library and needs a
//! C++ toolchain and cmake to build, which this crate does not ask of its
//! users. Both write the same format, though not byte for byte the same
//! streams. What stands here is the check that a buffer is a complete,
//! consistent Yaz0 stream, made before any byte of it is handed to the
//! decoder, and the rule for when to decompress at all.

use crate::bytes::{copy_bytes, has_magic, magic_at, read_u32, u32_be, Endian};
use crate::error::ErrorKind;
use vstd::prelude::*;

verus! {

/// `"Yaz0"`
pub open spec fn yaz0_magic() -> Seq<u8> {
    seq![0x59u8, 0x61u8, 0x7au8, 0x30u8]
}

/// The length of the header: magic, decoded size and eight reserved bytes.
pub open spec fn header_len() -> int {
    16
}

/// The size the header announces for the decoded content.
pub open spec fn announced_size(data: Seq<u8>) -> int {
    u32_be(data, 4)
}

/// The rest of a stream decodes without running out of input, without
/// reaching back before the start of the output and without writing past the
/// announced size.
///
/// `pos` is the next input byte, `out` the number of bytes decoded so far,
/// `code` the current group byte with the bits already used shifted out, and
/// `ops` the number of its bits still unused. A set top bit copies one input
/// byte; a clear one copies a run from the output, named by two or three input
/// bytes.
pub open spec fn stream_ok(data: Seq<u8>, size: int, pos: int, out: int, code: u8, ops: int) -> bool
    decreases data.len() - pos,
{
    if out >= size {
        true
    } else if pos < 0 || pos >= data.len() {
        false
    } else if ops == 0 {
        stream_ok(data, size, pos + 1, out, data[pos], 8)
    } else if code >= 128 {
        stream_ok(data, size, pos + 1, out + 1, ((code % 128) * 2) as u8, ops - 1)
    } else if pos + 1 >= data.len() {
        false
    } else {
        let distance = (data[pos] % 16) * 256 + data[pos + 1] + 1;
        let short = data[pos] / 16;
        if short == 0 && pos + 2 >= data.len() {
            false
        } else {
            let run = if short == 0 {
                data[pos + 2] + 18
            } else {
                short + 2
            };
            let next = if short == 0 {
                pos + 3
            } else {
                pos + 2
            };
            distance <= out && out + run <= size && stream_ok(
                data,
                size,
                next,
                out + run,
                ((code % 128) * 2) as u8,
                ops - 1,
            )
        }
    }
}

/// `data` is a Yaz0 stream that the decoder can work through to its end.
pub open spec fn well_formed(data: Seq<u8>) -> bool {
    &&& data.len() >= header_len()
    &&& has_magic(data, 0, yaz0_magic())
    &&& stream_ok(data, announced_size(data), header_len(), 0, 0, 0)
}

/// What `yaz0::Yaz0Archive::decompress` makes of a stream, where it makes
/// anything.
pub uninterp spec fn inflated(data: Seq<u8>) -> Option<Seq<u8>>;

/// What the encoder of the `yaz0` crate writes for `data` with look-ahead at
/// a quality from 1 to 10, where it succeeds.
pub uninterp spec fn deflated_at(data: Seq<u8>, quality: nat) -> Option<Seq<u8>>;

/// The quality at which this library compresses.
pub const QUALITY: usize = 7;

/// What compression makes of `data`: what the encoder writes at quality 7.
pub open spec fn deflated(data: Seq<u8>) -> Option<Seq<u8>> {
    deflated_at(data, 7)
}

/// Calls `yaz0::Yaz0Archive::new` and `decompress` on a stream already
/// checked. The decoder indexes its output without checks of its own, so only
/// a well-formed stream may reach it. The result is whatever the decoder
/// returns, as a function of the stream alone.
#[verifier::external_body]
fn inflate(data: &[u8]) -> (r: Option<Vec<u8>>)
    requires
        well_formed(data@),
    ensures
        match r {
            Some(v) => inflated(data@) == Some(v@),
            None => inflated(data@) is None,
        },
{
    let mut archive = yaz0::Yaz0Archive::new(std::io::Cursor::new(data)).ok()?;
    archive.decompress().ok()
}

/// Calls `yaz0::Yaz0Writer::compress_and_write` with look-ahead at the given
/// quality, which the encoder takes from 1 to 10. The header holds the length
/// as 32 bits, so longer input is left out. The result is whatever the
/// encoder writes, as a function of the input and the quality alone.
#[verifier::external_body]
fn deflate(data: &[u8], quality: usize) -> (r: Option<Vec<u8>>)
    requires
        data.len() <= u32::MAX,
        1 <= quality <= 10,
    ensures
        match r {
            Some(v) => deflated_at(data@, quality as nat) == Some(v@),
            None => deflated_at(data@, quality as nat) is None,
        },
{
    let mut out: Vec<u8> = Vec::new();
    let level = yaz0::CompressionLevel::Lookahead { quality };
    yaz0::Yaz0Writer::new(&mut out).compress_and_write(data, level).ok()?;
    Some(out)
}

/// Whether `data` begins with the Yaz0 magic.
pub fn is_yaz0(data: &[u8]) -> (r: bool)
    ensures
        r == has_magic(data@, 0, yaz0_magic()),
{
    let magic: [u8; 4] = [0x59u8, 0x61u8, 0x7au8, 0x30u8];
    assert(magic@ =~= yaz0_magic());
    magic_at(data, 0, magic)
}

/// Whether the decoder can work through `data` to the end.
pub fn check_stream(data: &[u8]) -> (r: bool)
    ensures
        r == well_formed(data@),
{
    if data.len() < 16 || !is_yaz0(data) {
        return false;
    }
    let size: u32 = read_u32(data, 4, Endian::Big);
    let mut pos: usize = 16;
    let mut out: u32 = 0;
    let mut code: u8 = 0;
    let mut ops: u8 = 0;
    while out < size
        invariant
            16 <= pos <= data.len(),
            out <= size,
            ops <= 8,
            size == announced_size(data@),
            well_formed(data@) == stream_ok(
                data@,
                size as int,
                pos as int,
                out as int,
                code,
                ops as int,
            ),
        decreases data.len() - pos,
    {
        if pos >= data.len() {
            return false;
        }
        if ops == 0 {
            code = data[pos];
            ops = 8;
            pos += 1;
        } else if code >= 128 {
            out += 1;
            code = (code % 128) * 2;
            ops -= 1;
            pos += 1;
        } else {
            if data.len() - pos < 2 {
                return false;
            }
            let b1: u8 = data[pos];
            let b2: u8 = data[pos + 1];
            let distance: u32 = (b1 % 16) as u32 * 256 + b2 as u32 + 1;
            let short: u8 = b1 / 16;
            if short == 0 && data.len() - pos < 3 {
                return false;
            }
            let run: u32 = if short == 0 {
                data[pos + 2] as u32 + 18
            } else {
                short as u32 + 2
            };
            if distance > out || run > size - out {
                return false;
            }
            out += run;
            code = (code % 128) * 2;
            ops -= 1;
            pos += if short == 0 {
                3
            } else {
                2
            };
        }
    }
    true
}

/// Decompresses a Yaz0 stream. A stream that is cut short or inconsistent is
/// refused with `Compression`, and so is one the decoder gives up on.
pub fn decompress(data: &[u8]) -> (r: Result<Vec<u8>, ErrorKind>)
    ensures
        match r {
            Ok(v) => well_formed(data@) && inflated(data@) == Some(v@),
            Err(e) => e == ErrorKind::Compression && (!well_formed(data@) || inflated(data@)
                is None),
        },
{
    if !check_stream(data) {
        return Err(ErrorKind::Compression);
    }
    decoded(inflate(data))
}

/// The outcome of decompression, given what the decoder handed back.
pub fn decoded(outcome: Option<Vec<u8>>) -> (r: Result<Vec<u8>, ErrorKind>)
    ensures
        match outcome {
            Some(v) => r == Ok::<Vec<u8>, ErrorKind>(v),
            None => r == Err::<Vec<u8>, ErrorKind>(ErrorKind::Compression),
        },
{
    match outcome {
        Some(v) => Ok(v),
        None => Err(ErrorKind::Compression),
    }
}

/// `data` itself when it does not begin with the Yaz0 magic, else what it
/// decompresses to.
pub open spec fn plain(data: Seq<u8>) -> Option<Seq<u8>> {
    if has_magic(data, 0, yaz0_magic()) {
        if well_formed(data) {
            inflated(data)
        } else {
            None
        }
    } else {
        Some(data)
    }
}

/// Decompresses `data` if it begins with the Yaz0 magic, and hands back a copy
/// of it unchanged if not.
pub fn decompress_if(data: &[u8]) -> (r: Result<Vec<u8>, ErrorKind>)
    ensures
        match r {
            Ok(v) => plain(data@) == Some(v@),
            Err(e) => e == ErrorKind::Compression && plain(data@) is None,
        },
{
    if is_yaz0(data) {
        decompress(data)
    } else {
        Ok(copy_bytes(data))
    }
}

/// Compresses `data`. Input too long for the 32-bit size field is refused
/// with `Compression`, and so is input the encoder gives up on.
pub fn compress(data: &[u8]) -> (r: Result<Vec<u8>, ErrorKind>)
    ensures
        match r {
            Ok(v) => data.len() <= u32::MAX && deflated(data@) == Some(v@),
            Err(e) => e == ErrorKind::Compression && (data.len() > u32::MAX || deflated(data@)
                is None),
        },
{
    if data.len() > u32::MAX as usize {
        return Err(ErrorKind::Compression);
    }
    decoded(deflate(data, QUALITY))
}

} // verus!
