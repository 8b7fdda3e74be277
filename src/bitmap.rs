//! Lossless bitmaps: a zlib-compressed body of color-table indices, 15-bit
//! colors or 32-bit colors, decoded into rows of pixels.
use crate::sound::le16;
use vstd::prelude::*;

verus! {

#[derive(Copy, Clone, Debug, PartialEq, Eq, Structural)]
pub struct Pixel {
    pub r: u8,
    pub g: u8,
    pub b: u8,
    pub a: u8,
}

/// A decoded bitmap, row by row; `a` is 255 throughout when it has no
/// alpha channel.
#[derive(Debug, PartialEq, Eq)]
pub struct Bitmap {
    pub width: u32,
    pub height: u32,
    pub has_alpha: bool,
    pub rows: Vec<Vec<Pixel>>,
}

#[derive(Copy, Clone, Debug, PartialEq, Eq, Structural)]
pub enum ImageType {
    Lossless,
    LosslessWithAlpha,
    /// Any other encoding.
    Other,
}

#[derive(Debug, PartialEq, Eq)]
pub struct DefineBitmap {
    pub id: u16,
    pub width: u16,
    pub height: u16,
    pub media_type: ImageType,
    pub data: Vec<u8>,
}

#[derive(Copy, Clone, Debug, PartialEq, Eq, Structural)]
pub enum BitmapError {
    /// The header is cut short.
    Truncated,
    /// The zlib stream of the body is rejected by the decompressor (a bad
    /// header, block or checksum; a stream cut short decompresses to what it
    /// holds).
    Inflate,
    /// The body is too short for the color table or the pixels.
    ShortBody,
    /// A pixel indexes past the color table.
    BadColorIndex,
}

/// The name of what `inflate::inflate_bytes_zlib` makes of a stream: the
/// decompressed bytes, or `None` when it reports an error.
pub uninterp spec fn zlib_inflated(data: Seq<u8>) -> Option<Seq<u8>>;

/// Relies on `inflate::inflate_bytes_zlib`: it decompresses a zlib stream,
/// or reports an error; a stream cut short yields the bytes decoded so far.
/// The outcome depends on the bytes alone.
#[verifier::external_body]
fn inflate_zlib(data: &[u8]) -> (r: Option<Vec<u8>>)
    ensures
        r is Some <==> zlib_inflated(data@) is Some,
        r matches Some(v) ==> v@ == zlib_inflated(data@)->0,
{
    inflate::inflate_bytes_zlib(data).ok()
}

/// A 5-bit channel widened to 8 bits by repeating its top bits below it.
pub open spec fn widen5(x: u16) -> u8 {
    ((x << 3u16) | (x >> 2u16)) as u8
}

/// Bytes per stored pixel of a format: 1 (table index), 2 (15-bit color),
/// 4 (32-bit color); 0 for an unknown format.
pub open spec fn pixel_bytes(format: u8) -> int {
    if format == 3 {
        1
    } else if format == 4 {
        2
    } else if format == 5 {
        4
    } else {
        0
    }
}

/// The pixel stored at `px` (its first bytes), with table entries of
/// `entry` bytes.
pub open spec fn pixel_of(format: u8, has_alpha: bool, table: Seq<u8>, px: Seq<u8>) -> Option<Pixel> {
    let entry = if has_alpha {
        4int
    } else {
        3
    };
    if format == 3 {
        let i = px[0] as int * entry;
        if i + entry <= table.len() {
            Some(
                Pixel {
                    r: table[i],
                    g: table[i + 1],
                    b: table[i + 2],
                    a: if has_alpha {
                        table[i + 3]
                    } else {
                        255
                    },
                },
            )
        } else {
            None
        }
    } else if format == 4 {
        let rgb = (px[0] as u16 * 256 + px[1] as u16) as u16;
        Some(
            Pixel {
                r: widen5(rgb >> 10u16),
                g: widen5((rgb >> 5u16) & 0x1fu16),
                b: widen5(rgb & 0x1fu16),
                a: 255,
            },
        )
    } else {
        Some(
            Pixel {
                r: px[0],
                g: px[1],
                b: px[2],
                a: if has_alpha {
                    px[3]
                } else {
                    255
                },
            },
        )
    }
}

/// The stored pixel at column `x` of row `y`: rows are padded to 4 bytes.
pub open spec fn stored_pixel(
    format: u8,
    has_alpha: bool,
    table: Seq<u8>,
    body: Seq<u8>,
    width: int,
    x: int,
    y: int,
) -> Option<Pixel> {
    let pb = pixel_bytes(format);
    let row_len = (width * pb + 3) / 4 * 4;
    let at = y * row_len + x * pb;
    pixel_of(format, has_alpha, table, body.subrange(at, at + pb))
}

/// Whether every pixel of a `width` by `height` image lies within `body`.
pub open spec fn body_fits(format: u8, body: Seq<u8>, width: int, height: int) -> bool {
    let pb = pixel_bytes(format);
    let row_len = (width * pb + 3) / 4 * 4;
    width == 0 || height == 0 || (height - 1) * row_len + width * pb <= body.len()
}

/// The decoded rows match the stored pixels.
pub open spec fn rows_match(
    rows: Seq<Vec<Pixel>>,
    format: u8,
    has_alpha: bool,
    table: Seq<u8>,
    body: Seq<u8>,
    width: int,
    height: int,
) -> bool {
    &&& rows.len() == height
    &&& forall|y: int|
        0 <= y < height ==> (#[trigger] rows[y])@.len() == width && forall|x: int|
            0 <= x < width ==> stored_pixel(format, has_alpha, table, body, width, x, y) == Some(
                #[trigger] rows[y]@[x],
            )
}

pub open spec fn all_pixels_defined(
    format: u8,
    has_alpha: bool,
    table: Seq<u8>,
    body: Seq<u8>,
    width: int,
    height: int,
) -> bool {
    forall|x: int, y: int|
        0 <= x < width && 0 <= y < height ==> #[trigger] stored_pixel(
            format,
            has_alpha,
            table,
            body,
            width,
            x,
            y,
        ) is Some
}

/// Bytes of one color-table entry.
pub open spec fn entry_bytes(has_alpha: bool) -> int {
    if has_alpha {
        4
    } else {
        3
    }
}

/// Which way decoding an inflated body (color table, then pixels) ends.
pub open spec fn decode_outcome(
    format: u8,
    has_alpha: bool,
    width: int,
    height: int,
    table_len: int,
    inflated: Seq<u8>,
) -> Result<(), BitmapError> {
    let tb = table_len * entry_bytes(has_alpha);
    if tb > inflated.len() {
        Err(BitmapError::ShortBody)
    } else {
        let table = inflated.subrange(0, tb);
        let body = inflated.subrange(tb, inflated.len() as int);
        if !body_fits(format, body, width, height) {
            Err(BitmapError::ShortBody)
        } else if !all_pixels_defined(format, has_alpha, table, body, width, height) {
            Err(BitmapError::BadColorIndex)
        } else {
            Ok(())
        }
    }
}

pub open spec fn is_blank(rows: Seq<Vec<Pixel>>, width: int, height: int) -> bool {
    &&& rows.len() == height
    &&& forall|y: int|
        0 <= y < height ==> (#[trigger] rows[y])@.len() == width && forall|x: int|
            0 <= x < width ==> #[trigger] rows[y]@[x] == (Pixel { r: 0, g: 0, b: 0, a: 255 })
}

fn copy_range(data: &[u8], start: usize, end: usize) -> (r: Vec<u8>)
    requires
        start <= end <= data@.len(),
    ensures
        r@ == data@.subrange(start as int, end as int),
{
    let mut r: Vec<u8> = Vec::new();
    let mut i = start;
    while i < end
        invariant
            start <= i <= end <= data@.len(),
            r@ == data@.subrange(start as int, i as int),
        decreases end - i,
    {
        r.push(data[i]);
        i += 1;
        proof {
            assert(r@ =~= data@.subrange(start as int, i as int));
        }
    }
    r
}

fn blank_rows(width: u16, height: u16) -> (r: Vec<Vec<Pixel>>)
    ensures
        is_blank(r@, width as int, height as int),
{
    let mut rows: Vec<Vec<Pixel>> = Vec::new();
    let mut y: u16 = 0;
    while y < height
        invariant
            y <= height,
            is_blank(rows@, width as int, y as int),
        decreases height - y,
    {
        let mut row: Vec<Pixel> = Vec::new();
        let mut x: u16 = 0;
        while x < width
            invariant
                x <= width,
                row@.len() == x,
                forall|i: int| 0 <= i < x ==> #[trigger] row@[i] == (Pixel { r: 0, g: 0, b: 0, a: 255 }),
            decreases width - x,
        {
            row.push(Pixel { r: 0, g: 0, b: 0, a: 255 });
            x += 1;
        }
        rows.push(row);
        y += 1;
    }
    rows
}

fn widen(x: u16) -> (r: u8)
    ensures
        r == widen5(x),
{
    ((x << 3u16) | (x >> 2u16)) as u8
}

fn read_pixel(format: u8, has_alpha: bool, table: &Vec<u8>, body: &Vec<u8>, at: usize) -> (r: Option<Pixel>)
    requires
        pixel_bytes(format) > 0,
        at + pixel_bytes(format) <= body@.len(),
    ensures
        r == pixel_of(format, has_alpha, table@, body@.subrange(at as int, at + pixel_bytes(format))),
{
    let len = body.len();
    if format == 3 {
        let entry: usize = if has_alpha {
            4
        } else {
            3
        };
        let i = body[at] as usize * entry;
        if i + entry <= table.len() {
            let a = if has_alpha {
                table[i + 3]
            } else {
                255
            };
            Some(Pixel { r: table[i], g: table[i + 1], b: table[i + 2], a })
        } else {
            None
        }
    } else if format == 4 {
        let rgb: u16 = body[at] as u16 * 256 + body[at + 1] as u16;
        Some(Pixel { r: widen(rgb >> 10u16), g: widen((rgb >> 5u16) & 0x1fu16), b: widen(rgb & 0x1fu16), a: 255 })
    } else {
        let a = if has_alpha {
            body[at + 3]
        } else {
            255
        };
        Some(Pixel { r: body[at], g: body[at + 1], b: body[at + 2], a })
    }
}

/// Decodes an inflated body: a color table of `table_len` entries, then
/// the pixel rows (see `decode_outcome` and `rows_match`).
pub fn decode_pixels(
    format: u8,
    has_alpha: bool,
    width: u16,
    height: u16,
    table_len: usize,
    inflated: &[u8],
) -> (r: Result<Vec<Vec<Pixel>>, BitmapError>)
    requires
        pixel_bytes(format) > 0,
        table_len <= 256,
    ensures
        match decode_outcome(format, has_alpha, width as int, height as int, table_len as int, inflated@) {
            Err(e) => r == Err::<Vec<Vec<Pixel>>, BitmapError>(e),
            Ok(()) => r matches Ok(rows) && rows_match(
                rows@,
                format,
                has_alpha,
                inflated@.subrange(0, table_len * entry_bytes(has_alpha)),
                inflated@.subrange(table_len * entry_bytes(has_alpha), inflated@.len() as int),
                width as int,
                height as int,
            ),
        },
{
    let entry: usize = if has_alpha {
        4
    } else {
        3
    };
    let tb = table_len * entry;
    if tb > inflated.len() {
        return Err(BitmapError::ShortBody);
    }
    let table = copy_range(inflated, 0, tb);
    let body = copy_range(inflated, tb, inflated.len());
    let pb: usize = if format == 3 {
        1
    } else if format == 4 {
        2
    } else {
        4
    };
    proof {
        assert(width as u64 * pb as u64 <= 65535 * 4) by (nonlinear_arith)
            requires
                width <= 65535,
                pb <= 4,
        ;
    }
    let row_len: u64 = (width as u64 * pb as u64 + 3) / 4 * 4;
    proof {
        assert(row_len <= 262144);
        assert((height as u64 - 1) * row_len <= 65535 * 262144) by (nonlinear_arith)
            requires
                height <= 65535,
                row_len <= 262144,
        ;
        assert(height * row_len <= 65535 * 262144) by (nonlinear_arith)
            requires
                height <= 65535,
                row_len <= 262144,
        ;
    }
    if width > 0 && height > 0 && (height as u64 - 1) * row_len + width as u64 * pb as u64 > body.len() as u64 {
        return Err(BitmapError::ShortBody);
    }
    let ghost w = width as int;
    let ghost h = height as int;
    let mut rows: Vec<Vec<Pixel>> = Vec::new();
    let mut row_start: u64 = 0;
    let mut y: u16 = 0;
    while y < height
        invariant
            y <= height,
            pb as int == pixel_bytes(format),
            pb > 0,
            row_len as int == (w * pb + 3) / 4 * 4,
            row_len <= 262144,
            h * row_len <= 65535 * 262144,
            row_start as int == y * row_len,
            body_fits(format, body@, w, h),
            w == width,
            h == height,
            tb as int == table_len * entry_bytes(has_alpha),
            tb <= inflated@.len(),
            table@ == inflated@.subrange(0, tb as int),
            body@ == inflated@.subrange(tb as int, inflated@.len() as int),
            rows@.len() == y,
            forall|yy: int|
                0 <= yy < y ==> (#[trigger] rows@[yy])@.len() == w && forall|x: int|
                    0 <= x < w ==> stored_pixel(format, has_alpha, table@, body@, w, x, yy) == Some(
                        #[trigger] rows@[yy]@[x],
                    ),
        decreases height - y,
    {
        let mut row: Vec<Pixel> = Vec::new();
        let mut at: u64 = row_start;
        let mut x: u16 = 0;
        while x < width
            invariant
                x <= width,
                y < height,
                pb as int == pixel_bytes(format),
                pb > 0,
                row_len as int == (w * pb + 3) / 4 * 4,
                row_start as int == y * row_len,
                at as int == row_start + x * pb,
                body_fits(format, body@, w, h),
                w == width,
                h == height,
                row@.len() == x,
                tb as int == table_len * entry_bytes(has_alpha),
                tb <= inflated@.len(),
                table@ == inflated@.subrange(0, tb as int),
                body@ == inflated@.subrange(tb as int, inflated@.len() as int),
                row_len <= 262144,
                forall|xx: int|
                    0 <= xx < x ==> stored_pixel(format, has_alpha, table@, body@, w, xx, y as int)
                        == Some(#[trigger] row@[xx]),
            decreases width - x,
        {
            proof {
                assert(y * row_len <= (h - 1) * row_len) by (nonlinear_arith)
                    requires
                        y < h,
                        row_len >= 0,
                ;
                assert(x * pb + pb <= w * pb) by (nonlinear_arith)
                    requires
                        x < w,
                        pb > 0,
                ;
                assert(w * pb <= 65535 * 4) by (nonlinear_arith)
                    requires
                        w <= 65535,
                        pb <= 4,
                ;
                assert((h - 1) * row_len <= 65535 * 262144) by (nonlinear_arith)
                    requires
                        h <= 65535,
                        row_len <= 262144,
                ;
            }
            match read_pixel(format, has_alpha, &table, &body, at as usize) {
                Some(px) => {
                    row.push(px);
                },
                None => {
                    proof {
                        assert(stored_pixel(format, has_alpha, table@, body@, w, x as int, y as int) is None);
                        assert(!all_pixels_defined(format, has_alpha, table@, body@, w, h));
                    }
                    return Err(BitmapError::BadColorIndex);
                },
            }
            proof {
                assert(at + pb == row_start + (x + 1) * pb) by (nonlinear_arith)
                    requires
                        at == row_start + x * pb,
                ;
            }
            at = at + pb as u64;
            x += 1;
        }
        rows.push(row);
        proof {
            assert(row_start + row_len == (y + 1) * row_len) by (nonlinear_arith)
                requires
                    row_start == y * row_len,
            ;
            assert((y + 1) * row_len <= h * row_len) by (nonlinear_arith)
                requires
                    y < h,
                    row_len >= 0,
            ;
        }
        row_start = row_start + row_len;
        y += 1;
    }
    proof {
        assert forall|x: int, yy: int| 0 <= x < w && 0 <= yy < h implies #[trigger] stored_pixel(
            format,
            has_alpha,
            table@,
            body@,
            w,
            x,
            yy,
        ) is Some by {
            assert(stored_pixel(format, has_alpha, table@, body@, w, x, yy) == Some(rows@[yy]@[x]));
        }
    }
    Ok(rows)
}

/// A blank bitmap of the given size: what an unsupported encoding gives.
pub open spec fn blank_of(b: Bitmap, width: u16, height: u16) -> bool {
    &&& b.width == width
    &&& b.height == height
    &&& !b.has_alpha
    &&& is_blank(b.rows@, width as int, height as int)
}

/// The header of a lossless body: format, width, height, then for format 3
/// the color-table size less one.
pub open spec fn header_too_short(d: Seq<u8>) -> bool {
    d.len() < 5 || (d[0] == 3 && d.len() < 6)
}

pub open spec fn body_start(d: Seq<u8>) -> int {
    if d[0] == 3 {
        6
    } else {
        5
    }
}

pub open spec fn table_entries(d: Seq<u8>) -> int {
    if d[0] == 3 {
        d[5] + 1
    } else {
        0
    }
}

impl Bitmap {
    fn blank(width: u16, height: u16) -> (r: Bitmap)
        ensures
            blank_of(r, width, height),
    {
        Bitmap { width: width as u32, height: height as u32, has_alpha: false, rows: blank_rows(width, height) }
    }

    /// Decodes a lossless bitmap: header, zlib body, color table and rows.
    /// Other encodings, and unknown formats, give a blank bitmap of the
    /// declared size.
    pub fn from_def(def: &DefineBitmap) -> (r: Result<Bitmap, BitmapError>)
        ensures
            def.media_type == ImageType::Other ==> (r matches Ok(b) && blank_of(b, def.width, def.height)),
            def.media_type != ImageType::Other ==> {
                let d = def.data@;
                let has_alpha = def.media_type == ImageType::LosslessWithAlpha;
                if header_too_short(d) {
                    r == Err::<Bitmap, BitmapError>(BitmapError::Truncated)
                } else {
                    let format = d[0];
                    let width = le16(d[1], d[2]);
                    let height = le16(d[3], d[4]);
                    let tl = table_entries(d);
                    match zlib_inflated(d.subrange(body_start(d), d.len() as int)) {
                        None => r == Err::<Bitmap, BitmapError>(BitmapError::Inflate),
                        Some(v) => if tl * entry_bytes(has_alpha) > v.len() {
                            r == Err::<Bitmap, BitmapError>(BitmapError::ShortBody)
                        } else if pixel_bytes(format) == 0 || (format == 4 && has_alpha) {
                            r matches Ok(b) && blank_of(b, def.width, def.height)
                        } else {
                            match decode_outcome(format, has_alpha, width as int, height as int, tl, v) {
                                Err(e) => r == Err::<Bitmap, BitmapError>(e),
                                Ok(()) => r matches Ok(b) && b.width == width && b.height == height
                                    && b.has_alpha == has_alpha && rows_match(
                                    b.rows@,
                                    format,
                                    has_alpha,
                                    v.subrange(0, tl * entry_bytes(has_alpha)),
                                    v.subrange(tl * entry_bytes(has_alpha), v.len() as int),
                                    width as int,
                                    height as int,
                                ),
                            }
                        },
                    }
                }
            },
    {
        let has_alpha = match def.media_type {
            ImageType::Lossless => false,
            ImageType::LosslessWithAlpha => true,
            ImageType::Other => {
                return Ok(Bitmap::blank(def.width, def.height));
            },
        };
        let data = &def.data;
        if data.len() < 5 || (data[0] == 3 && data.len() < 6) {
            return Err(BitmapError::Truncated);
        }
        let format = data[0];
        let width = crate::sound::read_le16(data[1], data[2]);
        let height = crate::sound::read_le16(data[3], data[4]);
        let (table_len, start) = if format == 3 {
            (data[5] as usize + 1, 6)
        } else {
            (0, 5)
        };
        let compressed = copy_range(data.as_slice(), start, data.len());
        let inflated = match inflate_zlib(compressed.as_slice()) {
            Some(v) => v,
            None => {
                return Err(BitmapError::Inflate);
            },
        };
        let entry: usize = if has_alpha {
            4
        } else {
            3
        };
        if table_len * entry > inflated.len() {
            return Err(BitmapError::ShortBody);
        }
        if !(format == 3 || format == 4 || format == 5) || (format == 4 && has_alpha) {
            return Ok(Bitmap::blank(def.width, def.height));
        }
        match decode_pixels(format, has_alpha, width, height, table_len, inflated.as_slice()) {
            Ok(rows) => Ok(Bitmap { width: width as u32, height: height as u32, has_alpha, rows }),
            Err(e) => Err(e),
        }
    }
}

} // verus!
