//! PNG handling for `mmdc`-rendered diagrams: the pixel size of a PNG and
//! the cell box the image should occupy. No terminal escape sequences are
//! produced here; the image protocols live in `terminal::protocols`.
use vstd::prelude::*;
use crate::util::text::{push_str, to_owned};

verus! {

/// A decoded diagram image: the original PNG bytes plus its pixel size.
#[derive(Debug, Clone, PartialEq, Eq)]
pub struct ImageData {
    /// Original PNG bytes, ready to be handed to a terminal image protocol.
    pub png: Vec<u8>,
    /// Image width in pixels.
    pub width_px: u32,
    /// Image height in pixels.
    pub height_px: u32,
}

/// A PNG that could not be decoded.
#[derive(Debug, Clone, PartialEq, Eq)]
pub struct ImageDecodeError(pub String);

impl ImageDecodeError {
    /// `cannot decode diagram image: <reason>`.
    pub fn describe(&self) -> (s: String)
        ensures
            s@ == "cannot decode diagram image: "@ + self.0@,
    {
        let mut s = to_owned("cannot decode diagram image: ");
        push_str(&mut s, self.0.as_str());
        s
    }
}

/// What `image`'s PNG reader reports as the dimensions of `bytes`: the
/// `(width, height)` from the header, or its error message.
pub uninterp spec fn png_reader_dimensions(bytes: Seq<u8>) -> Result<(u32, u32), Seq<char>>;

/// `ImageReader::with_format(Cursor::new(bytes), ImageFormat::Png).into_dimensions()`,
/// with the error rendered by its `Display`.
///
/// Trusted: the result is the reader's answer for these bytes, a function of
/// them alone; nothing is claimed of when the header is accepted.
#[verifier::external_body]
fn read_png_dimensions(bytes: &[u8]) -> (out: Result<(u32, u32), String>)
    ensures
        match out {
            Ok(d) => png_reader_dimensions(bytes@) == Ok::<(u32, u32), Seq<char>>(d),
            Err(m) => png_reader_dimensions(bytes@) == Err::<(u32, u32), Seq<char>>(m@),
        },
{
    let reader = image::ImageReader::with_format(std::io::Cursor::new(bytes), image::ImageFormat::Png);
    reader.into_dimensions().map_err(|e| e.to_string())
}

/// The result of [`ImageData::from_png`] for a given answer of the PNG
/// reader: the dimensions when both are non-zero, otherwise the reader's
/// message or `image has zero extent`.
pub open spec fn from_png_spec(dims: Result<(u32, u32), Seq<char>>) -> Result<(u32, u32), Seq<char>> {
    match dims {
        Ok((w, h)) => if w == 0 || h == 0 {
            Err("image has zero extent"@)
        } else {
            Ok((w, h))
        },
        Err(m) => Err(m),
    }
}

impl ImageData {
    /// Completes [`ImageData::from_png`] from the PNG reader's answer `dims`.
    pub fn from_dimensions(png: Vec<u8>, dims: Result<(u32, u32), String>) -> (r: Result<Self, ImageDecodeError>)
        ensures
            match (dims, r) {
                (Ok(d), Ok(img)) => from_png_spec(Ok::<(u32, u32), Seq<char>>(d)) == Ok::<(u32, u32), Seq<char>>(
                    (img.width_px, img.height_px),
                ) && img.png@ == png@,
                (Ok(d), Err(e)) => from_png_spec(Ok::<(u32, u32), Seq<char>>(d)) == Err::<(u32, u32), Seq<char>>(
                    e.0@,
                ),
                (Err(m), Ok(_)) => false,
                (Err(m), Err(e)) => e.0@ == m@,
            },
    {
        match dims {
            Ok((width_px, height_px)) => {
                if width_px == 0 || height_px == 0 {
                    proof {
                        reveal_strlit("image has zero extent");
                    }
                    return Err(ImageDecodeError(to_owned("image has zero extent")));
                }
                Ok(ImageData { png, width_px, height_px })
            },
            Err(m) => Err(ImageDecodeError(m)),
        }
    }

    /// Decodes `png` far enough to learn its pixel dimensions; a PNG the
    /// reader refuses, or one with a zero dimension, is an error.
    pub fn from_png(png: Vec<u8>) -> (r: Result<Self, ImageDecodeError>)
        ensures
            match (from_png_spec(png_reader_dimensions(png@)), r) {
                (Ok(d), Ok(img)) => d == (img.width_px, img.height_px) && img.png@ == png@,
                (Err(m), Err(e)) => e.0@ == m,
                _ => false,
            },
    {
        let dims = read_png_dimensions(png.as_slice());
        let ghost bytes = png@;
        let ghost gd = dims;
        let r = Self::from_dimensions(png, dims);
        proof {
            match gd {
                Ok(d) => {
                    assert(png_reader_dimensions(bytes) == Ok::<(u32, u32), Seq<char>>(d));
                },
                Err(m) => {
                    assert(png_reader_dimensions(bytes) == Err::<(u32, u32), Seq<char>>(m@));
                },
            }
        }
        r
    }

    /// Computes the `(cols, rows)` cell box for this image: the image's pixel
    /// size divided (rounding up) by the cell size, at least one cell each
    /// way; when wider than `max_cols` columns (at least one, at most
    /// `u16::MAX`), the width is clamped and the rows scaled from the pixels
    /// so that the aspect ratio holds. A zero `cell_pixels` component means
    /// the conventional 8 x 16 cell.
    pub fn cell_size(&self, cell_pixels: (u16, u16), max_cols: usize) -> (out: (u16, u16))
        ensures
            out == cell_size_spec(self.width_px, self.height_px, cell_pixels, max_cols),
    {
        let cw: u32 = if cell_pixels.0 == 0 { crate::util::DEFAULT_CELL_PIXELS.0 as u32 } else { cell_pixels.0 as u32 };
        let ch: u32 = if cell_pixels.1 == 0 { crate::util::DEFAULT_CELL_PIXELS.1 as u32 } else { cell_pixels.1 as u32 };
        let cols0 = ceil_div(self.width_px, cw);
        let cols = if cols0 < 1 { 1 } else { cols0 };
        let rows0 = ceil_div(self.height_px, ch);
        let rows = if rows0 < 1 { 1 } else { rows0 };
        let mc: usize = if max_cols < 1 { 1 } else { max_cols };
        let max_c: u32 = if mc > 0xffff { 0xffff } else { mc as u32 };
        if cols <= max_c {
            return (clamp_u16(cols), clamp_u16(rows));
        }
        let h64: u64 = self.height_px as u64;
        let m64: u64 = max_c as u64;
        let c64: u64 = cw as u64;
        assert(h64 * m64 <= 0xffff_ffff * 0xffff) by (nonlinear_arith)
            requires
                h64 <= 0xffff_ffff,
                m64 <= 0xffff,
        ;
        let hm: u64 = h64 * m64;
        assert(hm * c64 <= 0xffff_ffff * 0xffff * 0xffff) by (nonlinear_arith)
            requires
                hm <= 0xffff_ffff * 0xffff,
                c64 <= 0xffff,
        ;
        let num: u64 = hm * c64;
        let w64: u64 = self.width_px as u64;
        let d64: u64 = ch as u64;
        assert(w64 * d64 <= 0xffff_ffff * 0xffff) by (nonlinear_arith)
            requires
                w64 <= 0xffff_ffff,
                d64 <= 0xffff,
        ;
        let den: u64 = w64 * d64;
        assert(den > 0) by (nonlinear_arith)
            requires
                den == w64 * d64,
                w64 > 0,
                d64 > 0,
        ;
        let scaled0 = num / den + if num % den == 0 { 0 } else { 1 };
        let scaled = if scaled0 < 1 { 1 } else { scaled0 };
        let scaled32: u32 = if scaled > 0xffff_ffff { 0xffff_ffff } else { scaled as u32 };
        (clamp_u16(max_c), clamp_u16(scaled32))
    }
}

/// `⌈a / b⌉`.
pub open spec fn div_ceil(a: int, b: int) -> int {
    a / b + if a % b == 0 { 0int } else { 1int }
}

pub open spec fn clamp_u16_spec(v: int) -> u16 {
    if v > 0xffff { 0xffff } else { v as u16 }
}

/// The cell box of an image of `w` x `h` pixels; see [`ImageData::cell_size`].
pub open spec fn cell_size_spec(w: u32, h: u32, cell_pixels: (u16, u16), max_cols: usize) -> (u16, u16) {
    let cw: int = if cell_pixels.0 == 0 { 8 } else { cell_pixels.0 as int };
    let ch: int = if cell_pixels.1 == 0 { 16 } else { cell_pixels.1 as int };
    let cols = if div_ceil(w as int, cw) < 1 { 1 } else { div_ceil(w as int, cw) };
    let rows = if div_ceil(h as int, ch) < 1 { 1 } else { div_ceil(h as int, ch) };
    let mc: int = if max_cols < 1 { 1 } else if max_cols > 0xffff { 0xffff } else { max_cols as int };
    if cols <= mc {
        (clamp_u16_spec(cols), clamp_u16_spec(rows))
    } else {
        let scaled0 = div_ceil(h * mc * cw, w * ch);
        let scaled = if scaled0 < 1 { 1 } else { scaled0 };
        (clamp_u16_spec(mc), clamp_u16_spec(if scaled > 0xffff_ffff { 0xffff_ffff } else { scaled }))
    }
}

/// `⌈a / b⌉` for `b > 0`.
fn ceil_div(a: u32, b: u32) -> (q: u32)
    requires
        b > 0,
    ensures
        q == div_ceil(a as int, b as int),
{
    let d = a / b;
    let r = a % b;
    if r == 0 {
        d
    } else {
        assert(d < 0xffff_ffff) by (nonlinear_arith)
            requires
                d == a / b,
                r == a % b,
                r != 0,
                b > 0,
                a <= 0xffff_ffff,
        {
            assert(b >= 2);
            assert(d * b <= a);
        }
        d + 1
    }
}

fn clamp_u16(v: u32) -> (out: u16)
    ensures
        out == clamp_u16_spec(v as int),
{
    if v > 0xffff { 0xffff } else { v as u16 }
}

/// The cell box of an image is never empty, never wider than the limit
/// (one column at least, `u16::MAX` at most), and an unknown cell size is
/// the shared 8 x 16 default.
pub proof fn law_cell_box_is_sane(w: u32, h: u32, cell_pixels: (u16, u16), max_cols: usize)
    ensures
        cell_size_spec(w, h, cell_pixels, max_cols).0 >= 1,
        cell_size_spec(w, h, cell_pixels, max_cols).1 >= 1,
        cell_size_spec(w, h, cell_pixels, max_cols).0 <= (if max_cols < 1 { 1 } else { max_cols as int }),
        cell_size_spec(w, h, (0, 0), max_cols) == cell_size_spec(
            w,
            h,
            (crate::util::DEFAULT_CELL_PIXELS.0, crate::util::DEFAULT_CELL_PIXELS.1),
            max_cols,
        ),
{
    let cw: int = if cell_pixels.0 == 0 { 8 } else { cell_pixels.0 as int };
    let ch: int = if cell_pixels.1 == 0 { 16 } else { cell_pixels.1 as int };
    assert(div_ceil(w as int, cw) >= 0) by (nonlinear_arith)
        requires
            cw > 0,
            w >= 0,
    ;
}

} // verus!
