//! Clipboard pictures: bitmaps read from the clipboard become PNG files in
//! the history, and PNG files from the history become bitmaps again.
use vstd::prelude::*;

use image::ImageEncoder;
use vstd::slice::slice_subrange;

use crate::bitmap::dib_complete;
use crate::bitmap::dib_read;
use crate::bitmap::dib_header;
use crate::bitmap::dib_row_bytes;
use crate::bitmap::dib_to_rgba;
use crate::bitmap::dib_v5;
use crate::bitmap::rgba_to_dib;
use crate::bitmap::abs;
use crate::bitmap::le16;
use crate::bitmap::le32;
use crate::bitmap::signed32;

verus! {

/// The decimal digit of `d` (0 to 9).
pub open spec fn digit_char(d: int) -> char {
    (48 + d) as char
}

/// The decimal digits of a number, without leading zeros.
pub open spec fn decimal(n: nat) -> Seq<char>
    decreases n,
{
    if n < 10 {
        seq![digit_char(n as int)]
    } else {
        decimal(n / 10).push(digit_char((n % 10) as int))
    }
}

/// The preview text of a `w` by `h` picture, such as "800×600 图片".
pub open spec fn image_preview_text(w: u32, h: u32) -> Seq<char> {
    decimal(w as nat) + seq!['×'] + decimal(h as nat) + seq![' ', '图', '片']
}

fn digit_str(d: u32) -> (s: &'static str)
    requires
        d < 10,
    ensures
        s@ == seq![digit_char(d as int)],
{
    proof {
        reveal_strlit("0");
        reveal_strlit("1");
        reveal_strlit("2");
        reveal_strlit("3");
        reveal_strlit("4");
        reveal_strlit("5");
        reveal_strlit("6");
        reveal_strlit("7");
        reveal_strlit("8");
        reveal_strlit("9");
    }
    if d == 0 {
        "0"
    } else if d == 1 {
        "1"
    } else if d == 2 {
        "2"
    } else if d == 3 {
        "3"
    } else if d == 4 {
        "4"
    } else if d == 5 {
        "5"
    } else if d == 6 {
        "6"
    } else if d == 7 {
        "7"
    } else if d == 8 {
        "8"
    } else {
        "9"
    }
}

fn push_decimal(s: &mut String, n: u32)
    ensures
        final(s)@ == old(s)@ + decimal(n as nat),
    decreases n,
{
    if n >= 10 {
        push_decimal(s, n / 10);
    }
    s.append(digit_str(n % 10));
    proof {
        if n >= 10 {
            assert(final(s)@ =~= old(s)@ + decimal(n as nat));
        } else {
            assert(final(s)@ =~= old(s)@ + decimal(n as nat));
        }
    }
}

/// The preview text of a `w` by `h` picture (see `image_preview_text`).
pub fn image_preview(w: u32, h: u32) -> (s: String)
    ensures
        s@ == image_preview_text(w, h),
{
    let mut s = String::new();
    push_decimal(&mut s, w);
    s.append("×");
    push_decimal(&mut s, h);
    s.append(" 图片");
    proof {
        reveal_strlit("×");
        reveal_strlit(" 图片");
        assert(s@ =~= image_preview_text(w, h));
    }
    s
}

/// The PNG file that the `image` crate writes for a `w` by `h` picture of
/// RGBA bytes, or `None` where its encoder reports an error.
pub uninterp spec fn png_encoding(w: u32, h: u32, rgba: Seq<u8>) -> Option<Seq<u8>>;

/// Calls `PngEncoder::write_image` of the `image` crate on a new `Vec`, with
/// the colour type RGBA8. The contract claims only that the outcome is a
/// function of the arguments, named `png_encoding`. The encoder asserts
/// that the buffer holds exactly `w * h * 4` bytes, hence the `requires`.
#[verifier::external_body]
fn encode_png(w: u32, h: u32, rgba: &[u8]) -> (r: Option<Vec<u8>>)
    requires
        rgba@.len() == w * h * 4,
    ensures
        match r {
            Some(png) => png_encoding(w, h, rgba@) == Some(png@),
            None => png_encoding(w, h, rgba@) is None,
        },
{
    let mut png = Vec::new();
    let encoder = image::codecs::png::PngEncoder::new(&mut png);
    match encoder.write_image(rgba, w, h, image::ExtendedColorType::Rgba8) {
        Ok(()) => Some(png),
        Err(_) => None,
    }
}

/// A picture that the `image` crate decodes from a file: width, height and
/// the bytes of its RGBA buffer, or `None` where decoding fails.
pub uninterp spec fn decoded_image(data: Seq<u8>) -> Option<(u32, u32, Seq<u8>)>;

/// Calls `image::load_from_memory`, then `to_rgba8`, `width`, `height` and
/// `into_raw` on the result. The contract claims that the outcome is a
/// function of the bytes, named `decoded_image`, and that the buffer holds
/// at least `w * h * 4` bytes, which an `ImageBuffer` checks when it is
/// made. The text of the error is the decoder's message; nothing is claimed
/// of it.
#[verifier::external_body]
fn decode_image(data: &[u8]) -> (r: Result<(u32, u32, Vec<u8>), String>)
    ensures
        match r {
            Ok((w, h, px)) => decoded_image(data@) == Some((w, h, px@)) && px@.len() >= w * h * 4,
            Err(_) => decoded_image(data@) is None,
        },
{
    match image::load_from_memory(data) {
        Ok(img) => {
            let rgba = img.to_rgba8();
            let (w, h) = (rgba.width(), rgba.height());
            Ok((w, h, rgba.into_raw()))
        },
        Err(e) => Err(e.to_string()),
    }
}

/// What a picture of `w` by `h` becomes once encoded: its preview text and
/// the PNG bytes, or nothing when the encoding failed.
pub fn png_entry(w: u32, h: u32, png: Option<Vec<u8>>) -> (r: Option<(String, Vec<u8>)>)
    ensures
        match png {
            None => r is None,
            Some(p) => r matches Some((s, b)) && s@ == image_preview_text(w, h) && b@ == p@,
        },
{
    match png {
        None => None,
        Some(p) => Some((image_preview(w, h), p)),
    }
}

/// Whether every row that a bitmap announces is present (see
/// `dib_complete`).
pub fn dib_is_complete(d: &[u8]) -> (r: bool)
    ensures
        r == dib_complete(d@),
{
    let len = d.len();
    if len < 40 {
        return true;
    }
    let hs = (d[0] as u32) + 256 * (d[1] as u32) + 65536 * (d[2] as u32) + 16777216 * (
    d[3] as u32);
    let wu = (d[4] as u32) + 256 * (d[5] as u32) + 65536 * (d[6] as u32) + 16777216 * (
    d[7] as u32);
    let hu = (d[8] as u32) + 256 * (d[9] as u32) + 65536 * (d[10] as u32) + 16777216 * (
    d[11] as u32);
    let bc = (d[14] as u32) + 256 * (d[15] as u32);
    proof {
        assert(hs == le32(d@, 0));
        assert(wu == le32(d@, 4));
        assert(hu == le32(d@, 8));
        assert(bc == le16(d@, 14));
    }
    if hs < 40 || hs as usize > len || wu == 0 || wu >= 0x8000_0000 || (bc != 24 && bc != 32) {
        return true;
    }
    let w = wu as u128;
    proof {
        assert(w * bc <= 0x8000_0000u128 * 32) by (nonlinear_arith)
            requires
                w < 0x8000_0000,
                bc <= 32,
        ;
    }
    let row_bytes: u128 = (w * bc as u128 + 31) / 32 * 4;
    if ((len - hs as usize) as u128) < row_bytes {
        return true;
    }
    let height: u128 = if hu >= 0x8000_0000 {
        0x1_0000_0000u128 - hu as u128
    } else {
        hu as u128
    };
    proof {
        assert(dib_row_bytes(w as int, bc as int) == row_bytes);
        assert(abs(signed32(hu as int)) == height);
        assert(dib_header(d@) == Some(
            crate::bitmap::DibHeader {
                header_size: hs as int,
                width: w as int,
                height_raw: signed32(hu as int),
                bit_count: bc as int,
                row_bytes: row_bytes as int,
            },
        ));
    }
    if height == 0 {
        return true;
    }
    proof {
        assert(row_bytes <= 0x4_0000_0000);
        assert((height - 1) * row_bytes <= 0x8000_0000u128 * 0x4_0000_0000u128) by (nonlinear_arith)
            requires
                height <= 0x8000_0000,
                row_bytes <= 0x4_0000_0000,
        ;
        assert(w * (bc as u128 / 8) <= 0x8000_0000u128 * 4) by (nonlinear_arith)
            requires
                w < 0x8000_0000,
                bc <= 32,
        ;
    }
    hs as u128 + (height - 1) * row_bytes + w * (bc as u128 / 8) <= len as u128
}

/// A clipboard bitmap as a history picture: its preview text and its PNG
/// encoding. `None` when the bitmap is not one of the kinds read, when its
/// rows run past its data (see `dib_read`), or when encoding fails.
pub fn dib_to_png(dib: &[u8]) -> (r: Option<(String, Vec<u8>)>)
    ensures
        match dib_read(dib@) {
            None => r is None,
            Some((w, h, px)) => match png_encoding(w, h, px) {
                None => r is None,
                Some(p) => r matches Some((s, b)) && s@ == image_preview_text(w, h) && b@ == p,
            },
        },
{
    match dib_to_rgba(dib) {
        None => None,
        Some((w, h, rgba)) => {
            let png = encode_png(w, h, rgba.as_slice());
            png_entry(w, h, png)
        },
    }
}

/// What the clipboard watcher records of a bitmap: the preview text, the
/// content type "image", the PNG bytes and their number (see `dib_to_png`).
pub fn read_image_dib(dib: &[u8]) -> (r: Option<(String, String, Option<Vec<u8>>, i64)>)
    ensures
        match dib_read(dib@) {
            None => r is None,
            Some((w, h, px)) => match png_encoding(w, h, px) {
                None => r is None,
                Some(p) => r matches Some((s, t, Some(b), n)) && s@ == image_preview_text(w, h)
                    && t@ == seq!['i', 'm', 'a', 'g', 'e'] && b@ == p && n == b@.len() as i64,
            },
        },
{
    match dib_to_png(dib) {
        None => None,
        Some((preview, png)) => {
            let n = png.len() as i64;
            proof {
                reveal_strlit("image");
            }
            Some((preview, String::from_str("image"), Some(png), n))
        },
    }
}

/// The message of a picture that cannot be decoded: "图片解码失败: "
/// followed by the decoder's own words.
pub open spec fn decode_failure_message(detail: Seq<char>) -> Seq<char> {
    seq!['图', '片', '解', '码', '失', '败', ':', ' '] + detail
}

/// A history picture (a PNG file) as a clipboard bitmap: the version 5
/// bitmap of the decoded picture (see `dib_v5`). When decoding fails, the
/// error is the failure message with the decoder's words.
pub fn png_to_dib(png: &[u8]) -> (r: Result<Vec<u8>, String>)
    ensures
        match decoded_image(png@) {
            None => r matches Err(m) && exists|d: Seq<char>| m@ == decode_failure_message(d),
            Some((w, h, px)) => r matches Ok(dib) && px.len() >= w * h * 4 && dib@ == dib_v5(
                w,
                h,
                px.take(w * h * 4),
            ),
        },
{
    match decode_image(png) {
        Err(detail) => {
            let mut m = String::from_str("图片解码失败: ");
            m.append(detail.as_str());
            proof {
                reveal_strlit("图片解码失败: ");
                assert(m@ =~= decode_failure_message(detail@));
            }
            Err(m)
        },
        Ok((w, h, px)) => {
            let plen = px.len();
            proof {
                assert(w * h * 4 <= plen);
                assert(0 <= w * h && w * h * 4 <= 0xFFFF_FFFF_FFFF_FFFFu64) by (nonlinear_arith)
                    requires
                        w * h * 4 <= usize::MAX,
                ;
            }
            let n: usize = ((w as u64) * (h as u64) * 4) as usize;
            let pixels = slice_subrange(px.as_slice(), 0, n);
            proof {
                assert(pixels@ == px@.take(n as int));
            }
            Ok(rgba_to_dib(w, h, pixels))
        },
    }
}

/// A picture written to the clipboard from a PNG file reads back as the
/// same picture: the bitmap made of the decoded pixels decodes to those
/// pixels, so the history stores the PNG encoding of exactly them.
pub proof fn lemma_picture_written_reads_back(png: Seq<u8>)
    requires
        decoded_image(png) matches Some((w, h, px)) && 0 < w < 0x8000_0000 && 0 < h < 0x8000_0000
            && px.len() >= w * h * 4,
    ensures
        ({
            let (w, h, px) = decoded_image(png)->Some_0;
            let pixels = px.take(w * h * 4);
            dib_read(dib_v5(w, h, pixels)) == Some((w, h, pixels))
        }),
{
    let (w, h, px) = decoded_image(png)->Some_0;
    crate::bitmap::lemma_dib_read_round_trip(w, h, px.take(w * h * 4));
}

} // verus!
