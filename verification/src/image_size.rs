//! An image's pixel size, read from its header: PNG (the IHDR chunk) or
//! JPEG (the first start-of-frame segment).

use vstd::prelude::*;

verus! {

#[derive(Debug, PartialEq, Eq, Clone, Copy, Structural)]
pub struct ImageSize {
    pub width: u32,
    pub height: u32,
}

/// The big-endian number in `b[i..i + 4]`.
pub open spec fn be32(b: Seq<u8>, i: int) -> int {
    b[i] * 0x100_0000 + b[i + 1] * 0x1_0000 + b[i + 2] * 0x100 + b[i + 3]
}

/// The big-endian number in `b[i..i + 2]`.
pub open spec fn be16(b: Seq<u8>, i: int) -> int {
    b[i] * 0x100 + b[i + 1]
}

pub open spec fn png_signature() -> Seq<u8> {
    seq![0x89u8, 0x50, 0x4e, 0x47, 0x0d, 0x0a, 0x1a, 0x0a]
}

/// A PNG's size: the signature, then an `IHDR` chunk whose first two
/// fields are the width and the height.
pub open spec fn png_size_of(b: Seq<u8>) -> Option<(int, int)> {
    if b.len() >= 24 && b.take(8) == png_signature() && b[12] == 0x49 && b[13] == 0x48 && b[14]
        == 0x44 && b[15] == 0x52 {
        Some((be32(b, 16), be32(b, 20)))
    } else {
        None
    }
}

/// A JPEG start-of-frame marker (not DHT, JPG or DAC).
pub open spec fn is_frame_marker(m: u8) -> bool {
    0xc0 <= m <= 0xcf && m != 0xc4 && m != 0xc8 && m != 0xcc
}

/// The size in the first start-of-frame segment at or after `i`, walking
/// segment by segment.
pub open spec fn jpeg_scan(b: Seq<u8>, i: int) -> Option<(int, int)>
    decreases b.len() - i,
{
    if i < 0 || i + 9 > b.len() || b[i] != 0xff {
        None
    } else if is_frame_marker(b[i + 1]) {
        Some((be16(b, i + 7), be16(b, i + 5)))
    } else if be16(b, i + 2) < 2 || i + 2 + be16(b, i + 2) > b.len() {
        None
    } else {
        jpeg_scan(b, i + 2 + be16(b, i + 2))
    }
}

/// A JPEG's size: the start-of-image marker, then segments up to a frame.
pub open spec fn jpeg_size_of(b: Seq<u8>) -> Option<(int, int)> {
    if b.len() >= 2 && b[0] == 0xff && b[1] == 0xd8 {
        jpeg_scan(b, 2)
    } else {
        None
    }
}

/// A PNG's or a JPEG's size, whichever the bytes are.
pub open spec fn image_size_of(b: Seq<u8>) -> Option<(int, int)> {
    match png_size_of(b) {
        Some(s) => Some(s),
        None => jpeg_size_of(b),
    }
}

fn read_be32(b: &[u8], i: usize) -> (res: u32)
    requires
        i + 4 <= b@.len(),
    ensures
        res == be32(b@, i as int),
{
    let r = (b[i] as u32) * 0x100_0000 + (b[i + 1] as u32) * 0x1_0000 + (b[i + 2] as u32) * 0x100
        + (b[i + 3] as u32);
    r
}

fn read_be16(b: &[u8], i: usize) -> (res: usize)
    requires
        i + 2 <= b@.len(),
    ensures
        res == be16(b@, i as int),
{
    (b[i] as usize) * 0x100 + (b[i + 1] as usize)
}

/// An image's pixel size from its PNG or JPEG header; `None` for anything
/// else.
pub fn read_image_size(bytes: &[u8]) -> (res: Option<ImageSize>)
    ensures
        match image_size_of(bytes@) {
            Some((w, h)) => res == Some(ImageSize { width: w as u32, height: h as u32 }),
            None => res is None,
        },
{
    let n = bytes.len();
    if n >= 24 && bytes[0] == 0x89 && bytes[1] == 0x50 && bytes[2] == 0x4e && bytes[3] == 0x47
        && bytes[4] == 0x0d && bytes[5] == 0x0a && bytes[6] == 0x1a && bytes[7] == 0x0a && bytes[12]
        == 0x49 && bytes[13] == 0x48 && bytes[14] == 0x44 && bytes[15] == 0x52 {
        proof {
            assert(bytes@.take(8) =~= png_signature());
        }
        return Some(ImageSize { width: read_be32(bytes, 16), height: read_be32(bytes, 20) });
    }
    proof {
        if n >= 24 && bytes@.take(8) == png_signature() {
            assert(bytes@.take(8)[0] == bytes@[0]);
            assert(bytes@.take(8)[7] == bytes@[7]);
            assert(bytes@[1] == png_signature()[1]);
            assert(bytes@[2] == png_signature()[2]);
            assert(bytes@[3] == png_signature()[3]);
            assert(bytes@[4] == png_signature()[4]);
            assert(bytes@[5] == png_signature()[5]);
            assert(bytes@[6] == png_signature()[6]);
        }
    }
    if n < 2 || bytes[0] != 0xff || bytes[1] != 0xd8 {
        return None;
    }
    let mut i: usize = 2;
    while n - i >= 9 && bytes[i] == 0xff
        invariant
            n == bytes@.len(),
            2 <= i <= n,
            jpeg_size_of(bytes@) == jpeg_scan(bytes@, i as int),
            png_size_of(bytes@) is None,
            bytes@.len() >= 2 && bytes@[0] == 0xff && bytes@[1] == 0xd8,
        decreases n - i,
    {
        let m = bytes[i + 1];
        if 0xc0 <= m && m <= 0xcf && m != 0xc4 && m != 0xc8 && m != 0xcc {
            let height = read_be16(bytes, i + 5);
            let width = read_be16(bytes, i + 7);
            return Some(ImageSize { width: width as u32, height: height as u32 });
        }
        let len = read_be16(bytes, i + 2);
        if len < 2 {
            return None;
        }
        if len > n - i - 2 {
            return None;
        }
        i = i + 2 + len;
    }
    None
}

} // verus!
