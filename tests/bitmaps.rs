use flashback::bitmap::{decode_pixels, Bitmap, BitmapError, DefineBitmap, ImageType, Pixel};

/// A zlib stream holding `data` in one stored block.
fn zlib_stored(data: &[u8]) -> Vec<u8> {
    let mut out = vec![0x78, 0x01, 0x01];
    let len = data.len() as u16;
    out.extend_from_slice(&len.to_le_bytes());
    out.extend_from_slice(&(!len).to_le_bytes());
    out.extend_from_slice(data);
    let (mut a, mut b) = (1u32, 0u32);
    for &x in data {
        a = (a + x as u32) % 65521;
        b = (b + a) % 65521;
    }
    out.extend_from_slice(&((b << 16) | a).to_be_bytes());
    out
}

fn lossless(media_type: ImageType, format: u8, w: u16, h: u16, extra: &[u8], body: &[u8]) -> DefineBitmap {
    let mut data = vec![format];
    data.extend_from_slice(&w.to_le_bytes());
    data.extend_from_slice(&h.to_le_bytes());
    data.extend_from_slice(extra);
    data.extend_from_slice(&zlib_stored(body));
    DefineBitmap { id: 1, width: w, height: h, media_type, data }
}

fn px(r: u8, g: u8, b: u8, a: u8) -> Pixel {
    Pixel { r, g, b, a }
}

#[test]
fn color_table_pixels_with_row_padding() {
    // Two colors, then a 2x2 image of indices padded to 4 bytes per row.
    let body = [10, 20, 30, 40, 50, 60, 0, 1, 0, 0, 1, 1, 0, 0];
    let def = lossless(ImageType::Lossless, 3, 2, 2, &[1], &body);
    let b = Bitmap::from_def(&def).unwrap();
    assert_eq!(b.width, 2);
    assert!(!b.has_alpha);
    assert_eq!(
        b.rows,
        vec![
            vec![px(10, 20, 30, 255), px(40, 50, 60, 255)],
            vec![px(40, 50, 60, 255), px(40, 50, 60, 255)],
        ]
    );
}

#[test]
fn fifteen_bit_and_argb_pixels() {
    // 0x7c00 is full red, 0x001f full blue, 0x0200 half green.
    let body = [0x7c, 0x00, 0x00, 0x1f, 0x02, 0x00, 0, 0];
    let b = Bitmap::from_def(&lossless(ImageType::Lossless, 4, 3, 1, &[], &body)).unwrap();
    assert_eq!(b.rows, vec![vec![px(0xff, 0, 0, 255), px(0, 0, 0xff, 255), px(0, 0x84, 0, 255)]]);
    let body = [1, 2, 3, 4];
    let b = Bitmap::from_def(&lossless(ImageType::LosslessWithAlpha, 5, 1, 1, &[], &body)).unwrap();
    assert!(b.has_alpha);
    assert_eq!(b.rows, vec![vec![px(1, 2, 3, 4)]]);
}

#[test]
fn unsupported_encodings_are_blank() {
    let other = DefineBitmap { id: 1, width: 2, height: 1, media_type: ImageType::Other, data: vec![] };
    let b = Bitmap::from_def(&other).unwrap();
    assert_eq!(b.rows, vec![vec![px(0, 0, 0, 255), px(0, 0, 0, 255)]]);
    let unknown = lossless(ImageType::Lossless, 7, 5, 5, &[], &[]);
    let b = Bitmap::from_def(&unknown).unwrap();
    assert_eq!((b.width, b.height, b.rows.len()), (5, 5, 5));
}

#[test]
fn malformed_bitmaps_are_errors() {
    let short = DefineBitmap { id: 1, width: 1, height: 1, media_type: ImageType::Lossless, data: vec![5, 1] };
    assert_eq!(Bitmap::from_def(&short), Err(BitmapError::Truncated));
    let mut bad = lossless(ImageType::Lossless, 5, 1, 1, &[], &[1, 2, 3, 4]);
    let n = bad.data.len();
    bad.data[n - 1] ^= 0xff;
    assert_eq!(Bitmap::from_def(&bad), Err(BitmapError::Inflate));
    let small = lossless(ImageType::Lossless, 5, 2, 1, &[], &[1, 2, 3, 4]);
    assert_eq!(Bitmap::from_def(&small), Err(BitmapError::ShortBody));
    let index = lossless(ImageType::Lossless, 3, 1, 1, &[0], &[1, 2, 3, 1, 0, 0, 0]);
    assert_eq!(Bitmap::from_def(&index), Err(BitmapError::BadColorIndex));
}

#[test]
fn decoding_an_inflated_body() {
    assert_eq!(decode_pixels(5, false, 1, 1, 0, &[9, 8, 7, 6]), Ok(vec![vec![px(9, 8, 7, 255)]]));
    assert_eq!(decode_pixels(3, true, 1, 1, 2, &[1, 2, 3]), Err(BitmapError::ShortBody));
    assert_eq!(decode_pixels(3, false, 0, 3, 0, &[]), Ok(vec![vec![], vec![], vec![]]));
}
