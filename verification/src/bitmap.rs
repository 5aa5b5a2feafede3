//! Device-independent bitmaps (the clipboard's image format) and RGBA pixels.
use vstd::prelude::*;

use vstd::arithmetic::div_mod::lemma_fundamental_div_mod;
use vstd::arithmetic::div_mod::lemma_fundamental_div_mod_converse;

verus! {

/// Little-endian 16-bit value at `at`.
pub open spec fn le16(d: Seq<u8>, at: int) -> int {
    d[at] as int + 256 * (d[at + 1] as int)
}

/// Little-endian 32-bit value at `at`.
pub open spec fn le32(d: Seq<u8>, at: int) -> int {
    d[at] as int + 256 * (d[at + 1] as int) + 65536 * (d[at + 2] as int) + 16777216 * (
    d[at + 3] as int)
}

/// A 32-bit pattern read as a signed number.
pub open spec fn signed32(u: int) -> int {
    if u >= 0x8000_0000 {
        u - 0x1_0000_0000
    } else {
        u
    }
}

pub open spec fn abs(x: int) -> int {
    if x < 0 {
        -x
    } else {
        x
    }
}

/// The fields of a bitmap header that decoding reads: header size, width,
/// stored height (negative for top-down rows), bits per pixel, and the
/// length of a stored row (rows are padded to four bytes).
pub struct DibHeader {
    pub header_size: int,
    pub width: int,
    pub height_raw: int,
    pub bit_count: int,
    pub row_bytes: int,
}

pub open spec fn dib_row_bytes(width: int, bit_count: int) -> int {
    (width * bit_count + 31) / 32 * 4
}

/// The header of `d` when decoding accepts it: at least 40 bytes, a header
/// size between 40 and the data length, a positive width, 24 or 32 bits per
/// pixel, and at least one stored row of data after the header.
pub open spec fn dib_header(d: Seq<u8>) -> Option<DibHeader> {
    if d.len() < 40 {
        None
    } else {
        let hs = le32(d, 0);
        let w = signed32(le32(d, 4));
        let hr = signed32(le32(d, 8));
        let bc = le16(d, 14);
        if hs < 40 || hs > d.len() {
            None
        } else if w <= 0 {
            None
        } else if bc != 24 && bc != 32 {
            None
        } else if d.len() - hs < dib_row_bytes(w, bc) {
            None
        } else {
            Some(
                DibHeader {
                    header_size: hs,
                    width: w,
                    height_raw: hr,
                    bit_count: bc,
                    row_bytes: dib_row_bytes(w, bc),
                },
            )
        }
    }
}

/// Whether every row that the header announces is present in full. The
/// conversion is only asked of such data.
pub open spec fn dib_complete(d: Seq<u8>) -> bool {
    match dib_header(d) {
        None => true,
        Some(h) => abs(h.height_raw) == 0 || h.header_size + (abs(h.height_raw) - 1) * h.row_bytes
            + h.width * (h.bit_count / 8) <= d.len(),
    }
}

/// Byte `c` (red, green, blue, alpha) of pixel (`x`, `y`) of the picture,
/// counting rows from the top.
pub open spec fn dib_pixel_byte(d: Seq<u8>, h: DibHeader, y: int, x: int, c: int) -> u8 {
    let height = abs(h.height_raw);
    let src_y = if h.height_raw > 0 {
        height - 1 - y
    } else {
        y
    };
    let base = h.header_size + src_y * h.row_bytes + x * (h.bit_count / 8);
    if c == 0 {
        d[base + 2]
    } else if c == 1 {
        d[base + 1]
    } else if c == 2 {
        d[base]
    } else if h.bit_count == 32 {
        d[base + 3]
    } else {
        255
    }
}

/// The pixels of a bitmap as RGBA bytes, row by row from the top.
pub open spec fn dib_rgba(d: Seq<u8>, h: DibHeader) -> Seq<u8> {
    Seq::new(
        (h.width * abs(h.height_raw) * 4) as nat,
        |k: int| dib_pixel_byte(d, h, (k / 4) / h.width, (k / 4) % h.width, k % 4),
    )
}

/// A decoded picture: width, height and RGBA bytes.
pub open spec fn dib_decode(d: Seq<u8>) -> Option<(u32, u32, Seq<u8>)> {
    match dib_header(d) {
        None => None,
        Some(h) => Some((h.width as u32, abs(h.height_raw) as u32, dib_rgba(d, h))),
    }
}

/// What reading a bitmap gives: its decoded picture when every announced
/// row is present, nothing otherwise.
pub open spec fn dib_read(d: Seq<u8>) -> Option<(u32, u32, Seq<u8>)> {
    if dib_complete(d) {
        dib_decode(d)
    } else {
        None
    }
}

/// Position of byte `c` of pixel (`x`, `y`) in an RGBA buffer of width `w`.
pub proof fn lemma_pixel_index(w: int, y: int, x: int, c: int)
    requires
        w > 0,
        y >= 0,
        0 <= x < w,
        0 <= c < 4,
    ensures
        ((y * w + x) * 4 + c) / 4 == y * w + x,
        ((y * w + x) * 4 + c) % 4 == c,
        (y * w + x) / w == y,
        (y * w + x) % w == x,
{
    lemma_fundamental_div_mod_converse((y * w + x) * 4 + c, 4, y * w + x, c);
    assert(y * w + x == y * w + x) by {}
    lemma_fundamental_div_mod_converse(y * w + x, w, y, x);
}

fn read_le32(d: &[u8], at: usize) -> (r: u32)
    requires
        at + 4 <= d@.len(),
    ensures
        r == le32(d@, at as int),
{
    let b0 = d[at] as u32;
    let b1 = d[at + 1] as u32;
    let b2 = d[at + 2] as u32;
    let b3 = d[at + 3] as u32;
    b0 + 256 * b1 + 65536 * b2 + 16777216 * b3
}

fn read_le16(d: &[u8], at: usize) -> (r: u32)
    requires
        at + 2 <= d@.len(),
    ensures
        r == le16(d@, at as int),
{
    let b0 = d[at] as u32;
    let b1 = d[at + 1] as u32;
    b0 + 256 * b1
}

/// The pixels of a bitmap as RGBA bytes (see `dib_read`): nothing for a
/// bitmap that is not one of the kinds read or whose rows run past its
/// data.
pub fn dib_to_rgba(d: &[u8]) -> (r: Option<(u32, u32, Vec<u8>)>)
    ensures
        match r {
            None => dib_read(d@) is None,
            Some((w, h, px)) => dib_read(d@) == Some((w, h, px@)),
        },
{
    if !crate::picture::dib_is_complete(d) {
        return None;
    }
    let len = d.len();
    if len < 40 {
        return None;
    }
    let hs = read_le32(d, 0);
    if hs < 40 || hs as usize > len {
        return None;
    }
    let wu = read_le32(d, 4);
    if wu == 0 || wu >= 0x8000_0000 {
        return None;
    }
    let hu = read_le32(d, 8);
    let bc = read_le16(d, 14);
    if bc != 24 && bc != 32 {
        return None;
    }
    let w = wu as u64;
    let height: u64 = if hu >= 0x8000_0000 {
        0x1_0000_0000u64 - hu as u64
    } else {
        hu as u64
    };
    let bottom_up = hu > 0 && hu < 0x8000_0000;
    let bpp: u64 = (bc / 8) as u64;
    proof {
        assert(w * (bc as u64) <= 0x8000_0000u64 * 32) by (nonlinear_arith)
            requires
                w < 0x8000_0000,
                bc <= 32,
        ;
    }
    let row_bytes: u64 = (w * bc as u64 + 31) / 32 * 4;
    let available = (len - hs as usize) as u64;
    if available < row_bytes {
        return None;
    }
    let ghost hd = DibHeader {
        header_size: hs as int,
        width: w as int,
        height_raw: signed32(hu as int),
        bit_count: bc as int,
        row_bytes: row_bytes as int,
    };
    proof {
        assert(dib_header(d@) == Some(hd));
        assert(abs(hd.height_raw) == height);
        assert(bottom_up == (hd.height_raw > 0));
    }
    let mut rgba: Vec<u8> = Vec::new();
    let mut y: u64 = 0;
    while y < height
        invariant
            len == d@.len(),
            dib_header(d@) == Some(hd),
            dib_complete(d@),
            hd.header_size == hs,
            hd.width == w,
            hd.bit_count == bc,
            hd.row_bytes == row_bytes,
            abs(hd.height_raw) == height,
            bottom_up == (hd.height_raw > 0),
            bpp == bc / 8,
            bpp == 3 || bpp == 4,
            0 < w < 0x8000_0000,
            height <= 0x8000_0000,
            y <= height,
            rgba@.len() == y * w * 4,
            forall|k: int|
                0 <= k < rgba@.len() ==> rgba@[k] == dib_pixel_byte(d@, hd, (k / 4) / (w as int), (k / 4) % (w as int), k % 4),
        decreases height - y,
    {
        let src_y: u64 = if bottom_up {
            height - 1 - y
        } else {
            y
        };
        proof {
            assert(src_y <= height - 1);
            assert(hs + (height - 1) * row_bytes + w * bpp <= len);
            assert(src_y * row_bytes <= (height - 1) * row_bytes) by (nonlinear_arith)
                requires
                    src_y <= height - 1,
            ;
        }
        let row_start: u64 = hs as u64 + src_y * row_bytes;
        let mut x: u64 = 0;
        while x < w
            invariant
                len == d@.len(),
                dib_header(d@) == Some(hd),
                hd.header_size == hs,
                hd.width == w,
                hd.bit_count == bc,
                hd.row_bytes == row_bytes,
                abs(hd.height_raw) == height,
                bottom_up == (hd.height_raw > 0),
                bpp == bc / 8,
                bpp == 3 || bpp == 4,
                0 < w < 0x8000_0000,
                y < height,
                height <= 0x8000_0000,
                src_y == (if bottom_up {
                    (height - 1 - y) as u64
                } else {
                    y
                }),
                row_start == hs + src_y * row_bytes,
                row_start + w * bpp <= len,
                x <= w,
                rgba@.len() == (y * w + x) * 4,
                forall|k: int|
                    0 <= k < rgba@.len() ==> rgba@[k] == dib_pixel_byte(
                        d@,
                        hd,
                        (k / 4) / (w as int),
                        (k / 4) % (w as int),
                        k % 4,
                    ),
            decreases w - x,
        {
            proof {
                assert(x * bpp + bpp <= w * bpp) by (nonlinear_arith)
                    requires
                        x < w,
                ;
            }
            let base: usize = (row_start + x * bpp) as usize;
            let r = d[base + 2];
            let g = d[base + 1];
            let b = d[base];
            let a = if bc == 32 {
                d[base + 3]
            } else {
                255u8
            };
            let ghost start = rgba@.len() as int;
            let ghost old_rgba = rgba@;
            rgba.push(r);
            rgba.push(g);
            rgba.push(b);
            rgba.push(a);
            proof {
                assert(rgba@ =~= old_rgba + seq![r, g, b, a]);
                assert(base == hd.header_size + src_y * hd.row_bytes + x * (hd.bit_count / 8));
                assert forall|k: int| 0 <= k < rgba@.len() implies #[trigger] rgba@[k]
                    == dib_pixel_byte(d@, hd, (k / 4) / (w as int), (k / 4) % (w as int), k % 4) by {
                    if k < start {
                        assert(rgba@[k] == old_rgba[k]);
                    } else {
                        let c = k - start;
                        lemma_pixel_index(w as int, y as int, x as int, c);
                        assert(k == (y * w + x) * 4 + c);
                    }
                }
                assert((y * w + (x + 1)) * 4 == (y * w + x) * 4 + 4);
            }
            x = x + 1;
        }
        proof {
            assert((y * w + w) * 4 == (y + 1) * w * 4) by (nonlinear_arith);
            assert(y * w * 4 + w * 4 == (y * w + w) * 4);
        }
        y = y + 1;
    }
    proof {
        let img = dib_rgba(d@, hd);
        assert(rgba@.len() == img.len()) by {
            assert(height * w * 4 == w * height * 4) by (nonlinear_arith);
        }
        assert(rgba@ =~= img);
    }
    Some((wu, height as u32, rgba))
}

/// Little-endian bytes of a 32-bit value.
pub open spec fn le32_bytes(x: int) -> Seq<u8> {
    seq![
        (x % 256) as u8,
        ((x / 256) % 256) as u8,
        ((x / 65536) % 256) as u8,
        ((x / 16777216) % 256) as u8,
    ]
}

/// Little-endian bytes of a 16-bit value.
pub open spec fn le16_bytes(x: int) -> Seq<u8> {
    seq![(x % 256) as u8, ((x / 256) % 256) as u8]
}

/// The 124-byte version 5 bitmap header of a `w` by `h` picture of 32-bit
/// pixels, rows stored bottom-up, with sRGB colour space and BGRA masks.
pub open spec fn dib_v5_header(w: u32, h: u32) -> Seq<u8> {
    le32_bytes(124) + le32_bytes(w as int) + le32_bytes(h as int) + le16_bytes(1) + le16_bytes(32)
        + le32_bytes(0) + le32_bytes((w * 4 * h) % 0x1_0000_0000) + le32_bytes(0) + le32_bytes(0)
        + le32_bytes(0) + le32_bytes(0) + le32_bytes(0x00FF0000) + le32_bytes(0x0000FF00)
        + le32_bytes(0x000000FF) + le32_bytes(0xFF000000) + le32_bytes(0x73524742) + Seq::new(
        36,
        |i: int| 0u8,
    ) + le32_bytes(0) + le32_bytes(0) + le32_bytes(0) + le32_bytes(0) + le32_bytes(0)
        + le32_bytes(0) + le32_bytes(0)
}

/// The stored pixels of that bitmap: BGRA, the bottom row first.
pub open spec fn dib_v5_pixels(w: u32, h: u32, rgba: Seq<u8>) -> Seq<u8> {
    Seq::new(
        (w * h * 4) as nat,
        |k: int|
            {
                let p = k / 4;
                let c = k % 4;
                let row = p / (w as int);
                let x = p % (w as int);
                let src = ((h - 1 - row) * w + x) * 4;
                if c == 0 {
                    rgba[src + 2]
                } else if c == 1 {
                    rgba[src + 1]
                } else if c == 2 {
                    rgba[src]
                } else {
                    rgba[src + 3]
                }
            },
    )
}

/// The bitmap that holds a `w` by `h` picture given as RGBA bytes.
pub open spec fn dib_v5(w: u32, h: u32, rgba: Seq<u8>) -> Seq<u8> {
    dib_v5_header(w, h) + dib_v5_pixels(w, h, rgba)
}

fn push_le32(v: &mut Vec<u8>, x: u32)
    ensures
        final(v)@ == old(v)@ + le32_bytes(x as int),
{
    v.push((x % 256) as u8);
    v.push(((x / 256) % 256) as u8);
    v.push(((x / 65536) % 256) as u8);
    v.push(((x / 16777216) % 256) as u8);
    proof {
        assert(final(v)@ =~= old(v)@ + le32_bytes(x as int));
    }
}

fn push_le16(v: &mut Vec<u8>, x: u16)
    ensures
        final(v)@ == old(v)@ + le16_bytes(x as int),
{
    v.push((x % 256) as u8);
    v.push(((x / 256) % 256) as u8);
    proof {
        assert(final(v)@ =~= old(v)@ + le16_bytes(x as int));
    }
}

/// The version 5 bitmap of a `w` by `h` picture given as RGBA bytes, rows
/// top-down (see `dib_v5`).
pub fn rgba_to_dib(w: u32, h: u32, rgba: &[u8]) -> (dib: Vec<u8>)
    requires
        rgba@.len() == w * h * 4,
    ensures
        dib@ == dib_v5(w, h, rgba@),
{
    let mut dib: Vec<u8> = Vec::new();
    proof {
        assert(w * 4 * h == w * h * 4) by (nonlinear_arith);
    }
    let size: u64 = rgba.len() as u64;
    push_le32(&mut dib, 124);
    push_le32(&mut dib, w);
    push_le32(&mut dib, h);
    push_le16(&mut dib, 1);
    push_le16(&mut dib, 32);
    push_le32(&mut dib, 0);
    push_le32(&mut dib, (size % 0x1_0000_0000) as u32);
    push_le32(&mut dib, 0);
    push_le32(&mut dib, 0);
    push_le32(&mut dib, 0);
    push_le32(&mut dib, 0);
    push_le32(&mut dib, 0x00FF0000);
    push_le32(&mut dib, 0x0000FF00);
    push_le32(&mut dib, 0x000000FF);
    push_le32(&mut dib, 0xFF000000);
    push_le32(&mut dib, 0x73524742);
    let mut z: usize = 0;
    let ghost before_zeros = dib@;
    while z < 36
        invariant
            z <= 36,
            dib@ == before_zeros + Seq::new(z as nat, |i: int| 0u8),
        decreases 36 - z,
    {
        dib.push(0);
        proof {
            assert(dib@ =~= before_zeros + Seq::new((z + 1) as nat, |i: int| 0u8));
        }
        z = z + 1;
    }
    push_le32(&mut dib, 0);
    push_le32(&mut dib, 0);
    push_le32(&mut dib, 0);
    push_le32(&mut dib, 0);
    push_le32(&mut dib, 0);
    push_le32(&mut dib, 0);
    push_le32(&mut dib, 0);
    proof {
        assert(dib@ =~= dib_v5_header(w, h));
    }
    let ghost header = dib@;
    let ghost pixels = dib_v5_pixels(w, h, rgba@);
    let n: usize = rgba.len();
    let mut row: u64 = 0;
    while row < h as u64
        invariant
            rgba@.len() == w * h * 4,
            n == rgba@.len(),
            row <= h,
            header == dib_v5_header(w, h),
            pixels == dib_v5_pixels(w, h, rgba@),
            dib@.len() == header.len() + row * w * 4,
            dib@.subrange(0, header.len() as int) == header,
            forall|k: int|
                0 <= k < row * w * 4 ==> #[trigger] dib@[header.len() + k] == pixels[k],
        decreases h - row,
    {
        let y: u64 = h as u64 - 1 - row;
        let mut x: u64 = 0;
        while x < w as u64
            invariant
                rgba@.len() == w * h * 4,
                n == rgba@.len(),
                row < h,
                y == h - 1 - row,
                x <= w,
                header == dib_v5_header(w, h),
                pixels == dib_v5_pixels(w, h, rgba@),
                dib@.len() == header.len() + (row * w + x) * 4,
                dib@.subrange(0, header.len() as int) == header,
                forall|k: int|
                    0 <= k < (row * w + x) * 4 ==> #[trigger] dib@[header.len() + k] == pixels[k],
            decreases w - x,
        {
            proof {
                assert(0 <= y * w && (y * w + x) * 4 + 4 <= w * h * 4) by (nonlinear_arith)
                    requires
                        y < h,
                        x < w,
                ;
            }
            let src: usize = ((y * w as u64 + x) * 4) as usize;
            let ghost old_dib = dib@;
            dib.push(rgba[src + 2]);
            dib.push(rgba[src + 1]);
            dib.push(rgba[src]);
            dib.push(rgba[src + 3]);
            proof {
                assert(dib@ =~= old_dib + seq![rgba@[src + 2], rgba@[src + 1], rgba@[src as int], rgba@[src + 3]]);
                assert(dib@.subrange(0, header.len() as int) =~= old_dib.subrange(0, header.len() as int));
                let start = (row * w + x) * 4;
                assert forall|k: int| 0 <= k < (row * w + x + 1) * 4 implies #[trigger] dib@[header.len() + k]
                    == pixels[k] by {
                    if k < start {
                        assert(dib@[header.len() + k] == old_dib[header.len() + k]);
                    } else {
                        let c = k - start;
                        lemma_pixel_index(w as int, row as int, x as int, c);
                        assert(k == (row * w + x) * 4 + c);
                        assert(k < w * h * 4) by (nonlinear_arith)
                            requires
                                k == (row * w + x) * 4 + c,
                                c < 4,
                                row < h,
                                x < w,
                        ;
                    }
                }
            }
            x = x + 1;
        }
        proof {
            assert((row * w + w) * 4 == (row + 1) * w * 4) by (nonlinear_arith);
        }
        row = row + 1;
    }
    proof {
        assert(row * w * 4 == w * h * 4) by (nonlinear_arith)
            requires
                row == h,
        ;
        assert(dib@ =~= header + pixels) by {
            assert forall|k: int| 0 <= k < dib@.len() implies dib@[k] == (header + pixels)[k] by {
                if k < header.len() {
                    assert(dib@[k] == dib@.subrange(0, header.len() as int)[k]);
                } else {
                    assert(dib@[header.len() + (k - header.len())] == pixels[k - header.len()]);
                }
            }
        }
    }
    dib
}

proof fn lemma_le32_at(d: Seq<u8>, at: int, x: u32)
    requires
        0 <= at,
        at + 4 <= d.len(),
        d.subrange(at, at + 4) == le32_bytes(x as int),
    ensures
        le32(d, at) == x,
{
    assert(d[at] == d.subrange(at, at + 4)[0]);
    assert(d[at + 1] == d.subrange(at, at + 4)[1]);
    assert(d[at + 2] == d.subrange(at, at + 4)[2]);
    assert(d[at + 3] == d.subrange(at, at + 4)[3]);
    assert(x % 256 + 256 * ((x / 256) % 256) + 65536 * ((x / 65536) % 256) + 16777216 * ((x
        / 16777216) % 256) == x) by (bit_vector);
}

proof fn lemma_le16_at(d: Seq<u8>, at: int, x: u16)
    requires
        0 <= at,
        at + 2 <= d.len(),
        d.subrange(at, at + 2) == le16_bytes(x as int),
    ensures
        le16(d, at) == x,
{
    assert(d[at] == d.subrange(at, at + 2)[0]);
    assert(d[at + 1] == d.subrange(at, at + 2)[1]);
    assert(x % 256 + 256 * ((x / 256) % 256) == x) by (bit_vector);
}

/// A bitmap built from a picture decodes to that same picture: width,
/// height and every RGBA byte come back.
pub proof fn lemma_dib_round_trip(w: u32, h: u32, rgba: Seq<u8>)
    requires
        0 < w < 0x8000_0000,
        0 < h < 0x8000_0000,
        rgba.len() == w * h * 4,
    ensures
        dib_complete(dib_v5(w, h, rgba)),
        dib_decode(dib_v5(w, h, rgba)) == Some((w, h, rgba)),
{
    let hdr = dib_v5_header(w, h);
    let px = dib_v5_pixels(w, h, rgba);
    let d = dib_v5(w, h, rgba);
    assert(hdr.len() == 124);
    assert(d.len() == 124 + w * h * 4);
    assert(d.subrange(0, 4) =~= le32_bytes(124));
    assert(d.subrange(4, 8) =~= le32_bytes(w as int));
    assert(d.subrange(8, 12) =~= le32_bytes(h as int));
    assert(d.subrange(14, 16) =~= le16_bytes(32));
    lemma_le32_at(d, 0, 124);
    lemma_le32_at(d, 4, w);
    lemma_le32_at(d, 8, h);
    lemma_le16_at(d, 14, 32);
    lemma_fundamental_div_mod_converse(w * 32 + 31, 32, w as int, 31);
    assert(dib_row_bytes(w as int, 32) == w * 4);
    assert(w * h * 4 >= w * 4) by (nonlinear_arith)
        requires
            h >= 1,
    ;
    let hd = DibHeader {
        header_size: 124,
        width: w as int,
        height_raw: h as int,
        bit_count: 32,
        row_bytes: w * 4,
    };
    assert(dib_header(d) == Some(hd));
    assert(124 + (h - 1) * (w * 4) + w * (32int / 8) <= d.len()) by (nonlinear_arith)
        requires
            d.len() == 124 + w * h * 4,
    ;
    let img = dib_rgba(d, hd);
    assert(img.len() == rgba.len()) by (nonlinear_arith)
        requires
            img.len() == w * h * 4,
            rgba.len() == w * h * 4,
    ;
    assert forall|k: int| 0 <= k < img.len() implies #[trigger] img[k] == rgba[k] by {
        let p = k / 4;
        let c = k % 4;
        let y = p / (w as int);
        let x = p % (w as int);
        lemma_fundamental_div_mod(k, 4);
        lemma_fundamental_div_mod(p, w as int);
        assert(p == y * w + x);
        assert(0 <= y < h) by (nonlinear_arith)
            requires
                p == y * w + x,
                0 <= x < w,
                0 <= p,
                p * 4 + c == k,
                0 <= c,
                k < w * h * 4,
        ;
        let sy = h - 1 - y;
        let q = sy * w + x;
        lemma_pixel_index(w as int, sy, x, 0);
        lemma_pixel_index(w as int, sy, x, 1);
        lemma_pixel_index(w as int, sy, x, 2);
        lemma_pixel_index(w as int, sy, x, 3);
        assert(0 <= q && q * 4 + 4 <= w * h * 4) by (nonlinear_arith)
            requires
                q == sy * w + x,
                0 <= sy < h,
                0 <= x < w,
        ;
        let base = 124 + sy * (w * 4) + x * 4;
        assert(base == 124 + q * 4) by (nonlinear_arith)
            requires
                base == 124 + sy * (w * 4) + x * 4,
                q == sy * w + x,
        ;
        assert(h - 1 - sy == y);
        assert(d[base] == px[q * 4]);
        assert(d[base + 1] == px[q * 4 + 1]);
        assert(d[base + 2] == px[q * 4 + 2]);
        assert(d[base + 3] == px[q * 4 + 3]);
        assert(k == p * 4 + c);
    }
    assert(img =~= rgba);
}

/// Reading a bitmap built from a picture gives that same picture.
pub proof fn lemma_dib_read_round_trip(w: u32, h: u32, rgba: Seq<u8>)
    requires
        0 < w < 0x8000_0000,
        0 < h < 0x8000_0000,
        rgba.len() == w * h * 4,
    ensures
        dib_read(dib_v5(w, h, rgba)) == Some((w, h, rgba)),
{
    lemma_dib_round_trip(w, h, rgba);
}

} // verus!
