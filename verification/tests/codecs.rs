use clipboard_history::bitmap::{dib_to_rgba, rgba_to_dib};
use clipboard_history::picture::{
    dib_is_complete, dib_to_png, image_preview, png_to_dib, read_image_dib,
};
use clipboard_history::text::{
    nul_position, read_text_units, text_of_unit_prefix, text_to_utf16z,
};

fn le32(v: u32) -> [u8; 4] {
    v.to_le_bytes()
}

/// A 40-byte info header followed by the given pixel rows.
fn dib(width: i32, height: i32, bits: u16, rows: &[u8]) -> Vec<u8> {
    let mut d = Vec::new();
    d.extend_from_slice(&le32(40));
    d.extend_from_slice(&width.to_le_bytes());
    d.extend_from_slice(&height.to_le_bytes());
    d.extend_from_slice(&1u16.to_le_bytes());
    d.extend_from_slice(&bits.to_le_bytes());
    d.extend_from_slice(&[0u8; 24]);
    d.extend_from_slice(rows);
    d
}

#[test]
fn utf16_with_terminator() {
    assert_eq!(text_to_utf16z("hi"), vec![104, 105, 0]);
    assert_eq!(text_to_utf16z(""), vec![0]);
    assert_eq!(text_to_utf16z("😀"), vec![0xD83D, 0xDE00, 0]);
    assert_eq!(text_to_utf16z("中"), vec![0x4E2D, 0]);
}

#[test]
fn text_round_trip_through_units() {
    for s in ["hello", "剪贴板历史", "a😀b", ""] {
        let units = text_to_utf16z(s);
        let (preview, kind, raw, size) = read_text_units(&units, units.len() * 2);
        assert_eq!(preview, s);
        assert_eq!(kind, "text");
        assert_eq!(raw, Some(s.as_bytes().to_vec()));
        assert_eq!(size, (units.len() * 2) as i64);
    }
}

#[test]
fn text_stops_at_first_nul() {
    let units = [104u16, 105, 0, 120, 121];
    assert_eq!(nul_position(&units), 2);
    let (preview, _, raw, size) = read_text_units(&units, 10);
    assert_eq!(preview, "hi");
    assert_eq!(raw, Some(b"hi".to_vec()));
    assert_eq!(size, 10);
    assert_eq!(nul_position(&[1u16, 2, 3]), 3);
}

#[test]
fn unpaired_surrogate_becomes_replacement() {
    let units = [0xD800u16, 0x41, 0xDC00, 0];
    let (preview, _, _, _) = read_text_units(&units, 8);
    assert_eq!(preview, "\u{FFFD}A\u{FFFD}");
}

#[test]
fn preview_keeps_two_hundred_characters() {
    let long: String = "字".repeat(250);
    let units = text_to_utf16z(&long);
    let (preview, _, raw, _) = read_text_units(&units, 0);
    assert_eq!(preview.chars().count(), 200);
    assert_eq!(preview, "字".repeat(200));
    assert_eq!(raw, Some(long.as_bytes().to_vec()));
}

#[test]
fn window_text_prefix() {
    let units: Vec<u16> = "Notepad".encode_utf16().collect();
    assert_eq!(text_of_unit_prefix(&units, 4), "Note");
    assert_eq!(text_of_unit_prefix(&units, -1), "");
    assert_eq!(text_of_unit_prefix(&units, 100), "Notepad");
}

#[test]
fn decode_bottom_up_24_bit() {
    // 2x2, rows padded to 8 bytes; the first stored row is the bottom one.
    let rows = [
        1, 2, 3, 4, 5, 6, 0, 0, // bottom: (B,G,R) = (1,2,3), (4,5,6)
        7, 8, 9, 10, 11, 12, 0, 0, // top
    ];
    let d = dib(2, 2, 24, &rows);
    let (w, h, px) = dib_to_rgba(&d).unwrap();
    assert_eq!((w, h), (2, 2));
    assert_eq!(
        px,
        vec![9, 8, 7, 255, 12, 11, 10, 255, 3, 2, 1, 255, 6, 5, 4, 255]
    );
}

#[test]
fn decode_top_down_32_bit() {
    let rows = [10, 20, 30, 40, 50, 60, 70, 80];
    let d = dib(1, -2, 32, &rows);
    let (w, h, px) = dib_to_rgba(&d).unwrap();
    assert_eq!((w, h), (1, 2));
    assert_eq!(px, vec![30, 20, 10, 40, 70, 60, 50, 80]);
}

#[test]
fn decode_rejects_unsupported_bitmaps() {
    assert!(dib_to_rgba(&[0u8; 39]).is_none());
    assert!(dib_to_rgba(&dib(0, 1, 32, &[0; 4])).is_none());
    assert!(dib_to_rgba(&dib(-3, 1, 32, &[0; 12])).is_none());
    assert!(dib_to_rgba(&dib(1, 1, 16, &[0; 4])).is_none());
    assert!(dib_to_rgba(&dib(2, 1, 32, &[0; 4])).is_none());
    let mut bad_header = dib(1, 1, 32, &[0; 4]);
    bad_header[0] = 39;
    assert!(dib_to_rgba(&bad_header).is_none());
}

#[test]
fn completeness_of_bitmaps() {
    assert!(dib_is_complete(&dib(1, 2, 32, &[0; 8])));
    assert!(!dib_is_complete(&dib(1, 3, 32, &[0; 8])));
    assert!(dib_is_complete(&[0u8; 10]));
}

#[test]
fn built_bitmap_reads_back() {
    let rgba: Vec<u8> = (0..24).collect();
    let d = rgba_to_dib(3, 2, &rgba);
    assert_eq!(d.len(), 124 + 24);
    assert_eq!(&d[0..4], &124u32.to_le_bytes());
    assert_eq!(&d[4..8], &3u32.to_le_bytes());
    assert_eq!(&d[8..12], &2u32.to_le_bytes());
    assert_eq!(&d[14..16], &32u16.to_le_bytes());
    assert_eq!(&d[20..24], &24u32.to_le_bytes());
    // the bottom row comes first, in B, G, R, A order
    assert_eq!(&d[124..128], &[14, 13, 12, 15]);
    let (w, h, px) = dib_to_rgba(&d).unwrap();
    assert_eq!((w, h), (3, 2));
    assert_eq!(px, rgba);
}

#[test]
fn preview_text_of_pictures() {
    assert_eq!(image_preview(800, 600), "800×600 图片");
    assert_eq!(image_preview(0, 10), "0×10 图片");
    assert_eq!(image_preview(4294967295, 1), "4294967295×1 图片");
}

#[test]
fn bitmap_to_png_and_back() {
    let rows = [1, 2, 3, 4, 5, 6, 7, 8];
    let d = dib(2, 1, 32, &rows);
    let (preview, png) = dib_to_png(&d).unwrap();
    assert_eq!(preview, "2×1 图片");
    assert_eq!(&png[0..8], &[0x89, b'P', b'N', b'G', 0x0D, 0x0A, 0x1A, 0x0A]);
    let back = png_to_dib(&png).unwrap();
    let (w, h, px) = dib_to_rgba(&back).unwrap();
    assert_eq!((w, h), (2, 1));
    assert_eq!(px, vec![3, 2, 1, 4, 7, 6, 5, 8]);
}

#[test]
fn image_entry_from_bitmap() {
    let d = dib(1, 1, 24, &[9, 8, 7, 0]);
    let (preview, kind, raw, size) = read_image_dib(&d).unwrap();
    assert_eq!(preview, "1×1 图片");
    assert_eq!(kind, "image");
    let raw = raw.unwrap();
    assert_eq!(size, raw.len() as i64);
    assert!(read_image_dib(&dib(1, 1, 8, &[0; 4])).is_none());
}

#[test]
fn undecodable_picture_is_refused() {
    let err = png_to_dib(b"not a picture").unwrap_err();
    assert!(err.starts_with("图片解码失败: "));
}

#[test]
fn truncated_bitmaps_give_nothing() {
    let d = dib(1, 3, 24, &[1, 2, 3, 0]);
    assert!(dib_to_rgba(&d).is_none());
    assert!(dib_to_png(&d).is_none());
    assert!(read_image_dib(&d).is_none());
    let top_down = dib(2, -2, 32, &[0; 12]);
    assert!(dib_to_rgba(&top_down).is_none());
}
