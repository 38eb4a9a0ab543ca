//! Escape-sequence encoders: OSC 8 hyperlinks, Kitty graphics, iTerm2 inline
//! images, Sixel and tmux passthrough.
//!
//! Every function here takes data and returns a `String`; nothing reads the
//! environment or writes to a stream. The caller decides whether to emit,
//! based on the terminal's capabilities.
use vstd::prelude::*;
use base64::Engine;
use image::ImageEncoder;
use crate::terminal::capabilities::ImageSupport;
use crate::util::text::{push_char, push_str, push_decimal, decimal, chars_of, to_owned, push_chars};

verus! {

/// Maximum base64 payload per Kitty transmission chunk (protocol limit).
pub const KITTY_CHUNK: usize = 4096;

/// Sixel colour registers used by [`sixel_image`]: the fixed 6x6x6 cube.
pub const SIXEL_PALETTE_SIZE: usize = 216;

/// The string terminator `ESC \`.
pub open spec fn st() -> Seq<char> {
    seq!['\x1b', '\\']
}

// ---------------------------------------------------------------------------
// tmux passthrough
// ---------------------------------------------------------------------------

/// `s` with every `ESC` doubled.
pub open spec fn double_esc(s: Seq<char>) -> Seq<char>
    decreases s.len(),
{
    if s.len() == 0 {
        s
    } else {
        let rest = double_esc(s.drop_last());
        if s.last() == '\x1b' {
            rest.push('\x1b').push('\x1b')
        } else {
            rest.push(s.last())
        }
    }
}

/// The tmux passthrough wrapping of a sequence.
pub open spec fn tmux_wrap(s: Seq<char>) -> Seq<char> {
    seq!['\x1b', 'P', 't', 'm', 'u', 'x', ';'] + double_esc(s) + st()
}

/// Wrap a sequence so tmux forwards it to the outer terminal: `ESC P tmux;`,
/// the sequence with every embedded `ESC` doubled, and `ESC \`.
pub fn tmux_passthrough(sequence: &str) -> (out: String)
    ensures
        out@ == tmux_wrap(sequence@),
{
    let mut out = String::new();
    push_str(&mut out, "\x1bPtmux;");
    proof {
        reveal_strlit("\x1bPtmux;");
    }
    let cs = chars_of(sequence);
    let ghost head = out@;
    let mut i: usize = 0;
    while i < cs.len()
        invariant
            i <= cs@.len(),
            cs@ == sequence@,
            out@ == head + double_esc(cs@.take(i as int)),
        decreases cs@.len() - i,
    {
        if cs[i] == '\x1b' {
            push_char(&mut out, '\x1b');
        }
        push_char(&mut out, cs[i]);
        i += 1;
        proof {
            assert(cs@.take(i as int).drop_last() == cs@.take(i - 1));
            assert(cs@.take(i as int).last() == cs@[i - 1]);
        }
    }
    assert(cs@.take(cs@.len() as int) == cs@);
    push_char(&mut out, '\x1b');
    push_char(&mut out, '\\');
    out
}

/// Apply [`tmux_passthrough`] only when `wrap` is true.
pub fn maybe_tmux(sequence: String, wrap: bool) -> (out: String)
    ensures
        out@ == if wrap { tmux_wrap(sequence@) } else { sequence@ },
{
    if wrap {
        tmux_passthrough(sequence.as_str())
    } else {
        sequence
    }
}

// ---------------------------------------------------------------------------
// OSC 8 hyperlinks
// ---------------------------------------------------------------------------

/// A control character (`char::is_control`: U+0000..U+001F, U+007F..U+009F).
pub open spec fn is_control(c: char) -> bool {
    (c as u32) < 0x20 || (0x7f <= (c as u32) && (c as u32) < 0xa0)
}

/// A character that may stay in a hyperlink target.
pub open spec fn url_keep(c: char) -> bool {
    !is_control(c) && c != ';'
}

/// A character that may stay in a hyperlink parameter.
pub open spec fn param_keep(c: char) -> bool {
    !is_control(c) && c != ';' && c != ':'
}

/// `s` without control characters and without `;`.
pub open spec fn clean_url(s: Seq<char>) -> Seq<char> {
    s.filter(|c: char| url_keep(c))
}

/// `s` without control characters, `;` and `:`.
pub open spec fn clean_param(s: Seq<char>) -> Seq<char> {
    s.filter(|c: char| param_keep(c))
}

fn sanitize(s: &str, colon: bool) -> (out: String)
    ensures
        out@ == if colon { clean_param(s@) } else { clean_url(s@) },
{
    let cs = chars_of(s);
    let mut out = String::new();
    let mut i: usize = 0;
    proof {
        assert(cs@.take(0).filter(|c: char| url_keep(c)) =~= Seq::<char>::empty()) by {
            reveal(Seq::filter);
        }
        assert(cs@.take(0).filter(|c: char| param_keep(c)) =~= Seq::<char>::empty()) by {
            reveal(Seq::filter);
        }
    }
    while i < cs.len()
        invariant
            i <= cs@.len(),
            cs@ == s@,
            out@ == if colon {
                cs@.take(i as int).filter(|c: char| param_keep(c))
            } else {
                cs@.take(i as int).filter(|c: char| url_keep(c))
            },
        decreases cs@.len() - i,
    {
        let c = cs[i];
        let n = c as u32;
        let control = n < 0x20 || (0x7f <= n && n < 0xa0);
        let keep = !control && c != ';' && !(colon && c == ':');
        proof {
            assert(cs@.take(i as int).push(c) == cs@.take(i + 1));
            cs@.take(i as int).lemma_filter_push(c, |c: char| url_keep(c));
            cs@.take(i as int).lemma_filter_push(c, |c: char| param_keep(c));
        }
        if keep {
            push_char(&mut out, c);
        }
        i += 1;
    }
    assert(cs@.take(cs@.len() as int) == cs@);
    out
}

/// The start of an OSC 8 hyperlink to `url`.
pub open spec fn osc8_start_spec(url: Seq<char>) -> Seq<char> {
    seq!['\x1b', ']', '8', ';', ';'] + clean_url(url) + st()
}

/// The end of an OSC 8 hyperlink.
pub open spec fn osc8_end_spec() -> Seq<char> {
    seq!['\x1b', ']', '8', ';', ';'] + st()
}

/// Start an OSC 8 hyperlink: `ESC ] 8 ; ; URL ESC \`. Control characters
/// and `;` are stripped from `url` so a document cannot inject escape
/// sequences.
pub fn osc8_start(url: &str) -> (out: String)
    ensures
        out@ == osc8_start_spec(url@),
{
    let mut out = String::new();
    push_char(&mut out, '\x1b');
    push_char(&mut out, ']');
    push_char(&mut out, '8');
    push_char(&mut out, ';');
    push_char(&mut out, ';');
    let u = sanitize(url, false);
    push_str(&mut out, u.as_str());
    push_char(&mut out, '\x1b');
    push_char(&mut out, '\\');
    out
}

/// Start an OSC 8 hyperlink carrying an `id=` parameter, which lets
/// terminals highlight all cells belonging to the same link.
pub fn osc8_start_with_id(url: &str, id: &str) -> (out: String)
    ensures
        out@ == seq!['\x1b', ']', '8', ';', 'i', 'd', '='] + clean_param(id@) + seq![';'] + clean_url(url@) + st(),
{
    let mut out = String::new();
    push_char(&mut out, '\x1b');
    push_char(&mut out, ']');
    push_char(&mut out, '8');
    push_char(&mut out, ';');
    push_char(&mut out, 'i');
    push_char(&mut out, 'd');
    push_char(&mut out, '=');
    let p = sanitize(id, true);
    push_str(&mut out, p.as_str());
    push_char(&mut out, ';');
    let u = sanitize(url, false);
    push_str(&mut out, u.as_str());
    push_char(&mut out, '\x1b');
    push_char(&mut out, '\\');
    out
}

/// End an OSC 8 hyperlink.
pub fn osc8_end() -> (out: String)
    ensures
        out@ == osc8_end_spec(),
{
    let mut out = String::new();
    push_char(&mut out, '\x1b');
    push_char(&mut out, ']');
    push_char(&mut out, '8');
    push_char(&mut out, ';');
    push_char(&mut out, ';');
    push_char(&mut out, '\x1b');
    push_char(&mut out, '\\');
    out
}

/// A complete hyperlink: start, text, end.
pub fn osc8_link(url: &str, text: &str) -> (out: String)
    ensures
        out@ == osc8_start_spec(url@) + text@ + osc8_end_spec(),
{
    let mut out = osc8_start(url);
    push_str(&mut out, text);
    let e = osc8_end();
    push_str(&mut out, e.as_str());
    out
}

// ---------------------------------------------------------------------------
// Image payloads
// ---------------------------------------------------------------------------

/// A raw 8-bit RGB image.
#[derive(Debug, Clone, PartialEq, Eq)]
pub struct RgbImage {
    /// Width in pixels.
    pub width: u32,
    /// Height in pixels.
    pub height: u32,
    /// `width * height * 3` bytes, row-major.
    pub pixels: Vec<u8>,
}

/// The buffer holds exactly three bytes per pixel.
pub open spec fn rgb_ok(img: RgbImage) -> bool {
    img.pixels@.len() == (img.width as int) * (img.height as int) * 3
}

impl RgbImage {
    /// Create an image, returning `None` if `pixels` has the wrong length.
    pub fn new(width: u32, height: u32, pixels: Vec<u8>) -> (out: Option<RgbImage>)
        ensures
            match out {
                Some(img) => img.width == width && img.height == height && img.pixels@ == pixels@ && rgb_ok(img),
                None => pixels@.len() != (width as int) * (height as int) * 3,
            },
    {
        let w = width as u64;
        let h = height as u64;
        assert(w * h <= 0xffff_fffe_0000_0001) by (nonlinear_arith)
            requires
                w <= 0xffff_ffff,
                h <= 0xffff_ffff,
        ;
        let wh = w * h;
        let plen = pixels.len();
        if wh > 0x5555_5555_5555_5555 {
            assert(wh * 3 > u64::MAX);
            assert(plen <= usize::MAX);
            assert(usize::MAX <= u64::MAX);
            return None;
        }
        let expected = wh * 3;
        if (pixels.len() as u64) == expected {
            Some(RgbImage { width, height, pixels })
        } else {
            None
        }
    }

    /// The pixel at `(x, y)` as `(r, g, b)`.
    pub fn pixel(&self, x: u32, y: u32) -> (out: Option<(u8, u8, u8)>)
        ensures
            ({
                let i = ((y as int) * (self.width as int) + (x as int)) * 3;
                out == if x < self.width && y < self.height && i + 2 < self.pixels@.len() {
                    Some((self.pixels@[i], self.pixels@[i + 1], self.pixels@[i + 2]))
                } else {
                    None
                }
            }),
    {
        if x >= self.width || y >= self.height {
            return None;
        }
        let n = self.pixels.len() as u128;
        let yy = y as u128;
        let ww = self.width as u128;
        assert(yy * ww <= 0xffff_fffe_0000_0001) by (nonlinear_arith)
            requires
                yy <= 0xffff_ffff,
                ww <= 0xffff_ffff,
        ;
        let i = (yy * ww + (x as u128)) * 3;
        assert(i == ((y as int) * (self.width as int) + (x as int)) * 3);
        if i + 2 < n {
            let k = i as usize;
            Some((self.pixels[k], self.pixels[k + 1], self.pixels[k + 2]))
        } else {
            None
        }
    }
}

/// Image data handed to an encoder: either PNG bytes or raw RGB.
#[derive(Debug, Clone, PartialEq, Eq)]
pub enum ImageSource {
    /// Encoded PNG bytes.
    Png(Vec<u8>),
    /// Raw RGB pixels.
    Rgb(RgbImage),
}

/// The PNG encoding `image` produces for an RGB image (`None` when it fails).
pub uninterp spec fn png_encoding(width: u32, height: u32, pixels: Seq<u8>) -> Option<Seq<u8>>;

/// What `image` decodes from PNG bytes, converted to 8-bit RGB: width,
/// height and pixels (`None` when decoding fails).
pub uninterp spec fn png_decoding(bytes: Seq<u8>) -> Option<(u32, u32, Seq<u8>)>;

/// `PngEncoder::write_image` with `ExtendedColorType::Rgb8`.
///
/// Trusted: the result is the crate's encoding of the given image, a
/// function of its size and pixels; nothing more is claimed of the bytes.
/// The encoder panics unless the buffer holds exactly three bytes per
/// pixel, so that is required.
#[verifier::external_body]
fn encode_png_bytes(width: u32, height: u32, pixels: &[u8]) -> (out: Option<Vec<u8>>)
    requires
        pixels@.len() == (width as int) * (height as int) * 3,
    ensures
        match out {
            Some(v) => png_encoding(width, height, pixels@) == Some(v@),
            None => png_encoding(width, height, pixels@) is None,
        },
{
    let mut out = Vec::new();
    image::codecs::png::PngEncoder::new(&mut out)
        .write_image(pixels, width, height, image::ExtendedColorType::Rgb8)
        .ok()?;
    Some(out)
}

/// `image::load_from_memory_with_format(bytes, Png)` then `to_rgb8`.
///
/// Trusted: the result is the crate's decoding of the bytes, a function of
/// them alone; nothing is claimed of the pixel values.
#[verifier::external_body]
fn decode_png_bytes(bytes: &[u8]) -> (out: Option<(u32, u32, Vec<u8>)>)
    ensures
        match out {
            Some((w, h, p)) => png_decoding(bytes@) == Some((w, h, p@)),
            None => png_decoding(bytes@) is None,
        },
{
    let decoded = image::load_from_memory_with_format(bytes, image::ImageFormat::Png).ok()?;
    let rgb = decoded.to_rgb8();
    let (width, height) = (rgb.width(), rgb.height());
    Some((width, height, rgb.into_raw()))
}

fn copy_bytes(b: &[u8]) -> (out: Vec<u8>)
    ensures
        out@ == b@,
{
    let mut out: Vec<u8> = Vec::new();
    let mut i: usize = 0;
    while i < b.len()
        invariant
            i <= b@.len(),
            out@ == b@.take(i as int),
        decreases b@.len() - i,
    {
        out.push(b[i]);
        i += 1;
        assert(b@.take(i as int) == b@.take(i - 1).push(b@[i - 1]));
    }
    assert(b@.take(b@.len() as int) == b@);
    out
}

/// Encode an RGB image as PNG.
pub fn encode_png(img: &RgbImage) -> (out: Option<Vec<u8>>)
    requires
        rgb_ok(*img),
    ensures
        match out {
            Some(v) => png_encoding(img.width, img.height, img.pixels@) == Some(v@),
            None => png_encoding(img.width, img.height, img.pixels@) is None,
        },
{
    encode_png_bytes(img.width, img.height, img.pixels.as_slice())
}

/// Decode PNG bytes into an RGB image.
pub fn decode_png(bytes: &[u8]) -> (out: Option<RgbImage>)
    ensures
        match png_decoding(bytes@) {
            Some((w, h, p)) => match out {
                Some(img) => img.width == w && img.height == h && img.pixels@ == p && rgb_ok(img),
                None => p.len() != (w as int) * (h as int) * 3,
            },
            None => out is None,
        },
{
    match decode_png_bytes(bytes) {
        Some((w, h, p)) => RgbImage::new(w, h, p),
        None => None,
    }
}

/// The signature of a PNG file.
pub open spec fn png_signature() -> Seq<u8> {
    seq![0x89u8, 0x50u8, 0x4eu8, 0x47u8, 0x0du8, 0x0au8, 0x1au8, 0x0au8]
}

/// A big-endian 32-bit number at `i`.
pub open spec fn be32(b: Seq<u8>, i: int) -> u32 {
    ((b[i] as int) * 0x1000000 + (b[i + 1] as int) * 0x10000 + (b[i + 2] as int) * 0x100 + (b[i + 3] as int)) as u32
}

/// Width and height from a PNG's `IHDR` chunk, when the bytes start with
/// the PNG signature and the first chunk is `IHDR`.
pub open spec fn png_dims_spec(b: Seq<u8>) -> Option<(u32, u32)> {
    if b.len() >= 24 && b.subrange(0, 8) == png_signature() && b.subrange(12, 16) == seq![
        0x49u8,
        0x48u8,
        0x44u8,
        0x52u8,
    ] {
        Some((be32(b, 16), be32(b, 20)))
    } else {
        None
    }
}

fn read_be32(b: &[u8], i: usize) -> (v: u32)
    requires
        i + 4 <= b@.len(),
    ensures
        v == be32(b@, i as int),
{
    let v: u64 = (b[i] as u64) * 0x1000000 + (b[i + 1] as u64) * 0x10000 + (b[i + 2] as u64) * 0x100 + (b[i + 3] as u64);
    v as u32
}

/// Read `width`/`height` straight from a PNG `IHDR` chunk.
pub fn png_dimensions(bytes: &[u8]) -> (out: Option<(u32, u32)>)
    ensures
        out == png_dims_spec(bytes@),
{
    if bytes.len() < 24 {
        return None;
    }
    let sig = bytes[0] == 0x89 && bytes[1] == 0x50 && bytes[2] == 0x4e && bytes[3] == 0x47
        && bytes[4] == 0x0d && bytes[5] == 0x0a && bytes[6] == 0x1a && bytes[7] == 0x0a;
    if !sig {
        assert(bytes@.subrange(0, 8) != png_signature()) by {
            if bytes@.subrange(0, 8) == png_signature() {
                assert(bytes@.subrange(0, 8)[0] == bytes@[0]);
                assert(bytes@.subrange(0, 8)[1] == bytes@[1]);
                assert(bytes@.subrange(0, 8)[2] == bytes@[2]);
                assert(bytes@.subrange(0, 8)[3] == bytes@[3]);
                assert(bytes@.subrange(0, 8)[4] == bytes@[4]);
                assert(bytes@.subrange(0, 8)[5] == bytes@[5]);
                assert(bytes@.subrange(0, 8)[6] == bytes@[6]);
                assert(bytes@.subrange(0, 8)[7] == bytes@[7]);
            }
        }
        return None;
    }
    assert(bytes@.subrange(0, 8) =~= png_signature());
    let ihdr = bytes[12] == 0x49 && bytes[13] == 0x48 && bytes[14] == 0x44 && bytes[15] == 0x52;
    if !ihdr {
        assert(bytes@.subrange(12, 16) != seq![0x49u8, 0x48u8, 0x44u8, 0x52u8]) by {
            if bytes@.subrange(12, 16) == seq![0x49u8, 0x48u8, 0x44u8, 0x52u8] {
                assert(bytes@.subrange(12, 16)[0] == bytes@[12]);
                assert(bytes@.subrange(12, 16)[1] == bytes@[13]);
                assert(bytes@.subrange(12, 16)[2] == bytes@[14]);
                assert(bytes@.subrange(12, 16)[3] == bytes@[15]);
            }
        }
        return None;
    }
    assert(bytes@.subrange(12, 16) =~= seq![0x49u8, 0x48u8, 0x44u8, 0x52u8]);
    Some((read_be32(bytes, 16), read_be32(bytes, 20)))
}

impl ImageSource {
    /// The PNG representation, encoding raw RGB when necessary; `None` if
    /// encoding fails.
    pub fn to_png(&self) -> (out: Option<Vec<u8>>)
        requires
            *self matches ImageSource::Rgb(img) ==> rgb_ok(img),
        ensures
            match *self {
                ImageSource::Png(b) => out matches Some(v) && v@ == b@,
                ImageSource::Rgb(img) => match out {
                    Some(v) => png_encoding(img.width, img.height, img.pixels@) == Some(v@),
                    None => png_encoding(img.width, img.height, img.pixels@) is None,
                },
            },
    {
        match self {
            ImageSource::Png(bytes) => Some(copy_bytes(bytes.as_slice())),
            ImageSource::Rgb(img) => encode_png(img),
        }
    }

    /// The RGB representation, decoding PNG when necessary.
    pub fn to_rgb(&self) -> (out: Option<RgbImage>)
        ensures
            match *self {
                ImageSource::Rgb(img) => out matches Some(i) && i.width == img.width && i.height
                    == img.height && i.pixels@ == img.pixels@,
                ImageSource::Png(b) => match png_decoding(b@) {
                    Some((w, h, p)) => match out {
                        Some(img) => img.width == w && img.height == h && img.pixels@ == p && rgb_ok(img),
                        None => p.len() != (w as int) * (h as int) * 3,
                    },
                    None => out is None,
                },
            },
    {
        match self {
            ImageSource::Rgb(img) => Some(
                RgbImage { width: img.width, height: img.height, pixels: copy_bytes(img.pixels.as_slice()) },
            ),
            ImageSource::Png(bytes) => decode_png(bytes.as_slice()),
        }
    }

    /// Pixel dimensions, if they can be determined.
    pub fn dimensions(&self) -> (out: Option<(u32, u32)>)
        ensures
            out == match *self {
                ImageSource::Rgb(img) => Some((img.width, img.height)),
                ImageSource::Png(b) => png_dims_spec(b@),
            },
    {
        match self {
            ImageSource::Rgb(img) => Some((img.width, img.height)),
            ImageSource::Png(bytes) => png_dimensions(bytes.as_slice()),
        }
    }
}


// ---------------------------------------------------------------------------
// base64
// ---------------------------------------------------------------------------

/// The standard base64 alphabet.
pub open spec fn b64_digit(v: int) -> char {
    if v < 26 {
        (('A' as u32) + v) as char
    } else if v < 52 {
        (('a' as u32) + (v - 26)) as char
    } else if v < 62 {
        (('0' as u32) + (v - 52)) as char
    } else if v == 62 {
        '+'
    } else {
        '/'
    }
}

/// Standard base64 with `=` padding: every three bytes become four
/// characters; a final one or two bytes become two or three characters and
/// padding.
pub open spec fn base64_of(b: Seq<u8>) -> Seq<char>
    decreases b.len(),
{
    if b.len() == 0 {
        Seq::empty()
    } else if b.len() == 1 {
        seq![b64_digit((b[0] / 4) as int), b64_digit((b[0] % 4) * 16), '=', '=']
    } else if b.len() == 2 {
        seq![
            b64_digit((b[0] / 4) as int),
            b64_digit((b[0] % 4) * 16 + b[1] / 16),
            b64_digit((b[1] % 16) * 4),
            '=',
        ]
    } else {
        seq![
            b64_digit((b[0] / 4) as int),
            b64_digit((b[0] % 4) * 16 + b[1] / 16),
            b64_digit((b[1] % 16) * 4 + b[2] / 64),
            b64_digit((b[2] % 64) as int),
        ] + base64_of(b.skip(3))
    }
}

/// `base64::engine::general_purpose::STANDARD.encode`.
///
/// Trusted: the standard alphabet with `=` padding, as the crate documents
/// for its `STANDARD` engine.
#[verifier::external_body]
fn b64_encode(bytes: &[u8]) -> (out: String)
    ensures
        out@ == base64_of(bytes@),
{
    base64::engine::general_purpose::STANDARD.encode(bytes)
}

proof fn lemma_base64_len(b: Seq<u8>)
    ensures
        base64_of(b).len() == 4 * ((b.len() + 2) / 3),
    decreases b.len(),
{
    if b.len() >= 3 {
        lemma_base64_len(b.skip(3));
    }
}

// ---------------------------------------------------------------------------
// Kitty graphics protocol
// ---------------------------------------------------------------------------

/// The payload split into chunks of at most `size` characters; an empty
/// payload is one empty chunk.
pub open spec fn chunks_of(data: Seq<char>, size: nat) -> Seq<Seq<char>>
    decreases data.len(),
{
    if data.len() <= size || size == 0 {
        seq![data]
    } else {
        seq![data.take(size as int)] + chunks_of(data.skip(size as int), size)
    }
}

/// One Kitty transmission command: the first carries format, action and
/// placement, every one says whether more follow.
pub open spec fn kitty_chunk(chunk: Seq<char>, first: bool, more: bool, cols: u16, rows: u16) -> Seq<char> {
    let m = if more { '1' } else { '0' };
    let head = if first {
        "f=100,a=T,c="@ + decimal(cols as nat) + ",r="@ + decimal(rows as nat) + seq![',', 'm', '=', m]
    } else {
        seq!['m', '=', m]
    };
    seq!['\x1b', '_', 'G'] + head + seq![';'] + chunk + st()
}

/// The Kitty commands for the chunks `cs[k..]`.
pub open spec fn kitty_from(cs: Seq<Seq<char>>, k: int, cols: u16, rows: u16) -> Seq<char>
    decreases cs.len() - k,
{
    if k >= cs.len() || k < 0 {
        Seq::empty()
    } else {
        kitty_chunk(cs[k], k == 0, k + 1 < cs.len(), cols, rows) + kitty_from(cs, k + 1, cols, rows)
    }
}

/// The Kitty transmit-and-display command for PNG bytes.
pub open spec fn kitty_spec(png: Seq<u8>, cols: u16, rows: u16) -> Seq<char> {
    kitty_from(chunks_of(base64_of(png), KITTY_CHUNK as nat), 0, cols, rows)
}

/// Split a payload into chunks of at most `size` characters (an empty
/// payload is one empty chunk).
fn split_chunks(data: &[char], size: usize) -> (out: Vec<Vec<char>>)
    requires
        size > 0,
    ensures
        out@.map_values(|c: Vec<char>| c@) == chunks_of(data@, size as nat),
{
    let mut out: Vec<Vec<char>> = Vec::new();
    let mut start: usize = 0;
    let n = data.len();
    proof {
        assert(data@.skip(0) == data@);
        assert(out@.map_values(|c: Vec<char>| c@) + chunks_of(data@, size as nat) =~= chunks_of(data@, size as nat));
    }
    while n - start > size
        invariant
            n == data@.len(),
            start <= data@.len(),
            size > 0,
            out@.map_values(|c: Vec<char>| c@) + chunks_of(data@.skip(start as int), size as nat)
                == chunks_of(data@, size as nat),
        decreases data@.len() - start,
    {
        let mut chunk: Vec<char> = Vec::new();
        let mut k: usize = 0;
        while k < size
            invariant
                k <= size,
                n == data@.len(),
                start + size < data@.len(),
                chunk@ == data@.subrange(start as int, start + k),
            decreases size - k,
        {
            chunk.push(data[start + k]);
            k += 1;
            assert(data@.subrange(start as int, start + k) == data@.subrange(start as int, start + k - 1).push(data@[start + k - 1]));
        }
        let ghost before = out@.map_values(|c: Vec<char>| c@);
        proof {
            let rest = data@.skip(start as int);
            assert(rest.take(size as int) == chunk@);
            assert(rest.skip(size as int) == data@.skip(start + size));
        }
        out.push(chunk);
        proof {
            assert(out@.map_values(|c: Vec<char>| c@) == before.push(data@.subrange(start as int, start + size)));
            let rest = data@.skip(start as int);
            assert(chunks_of(rest, size as nat) == seq![rest.take(size as int)] + chunks_of(rest.skip(size as int), size as nat));
            assert(before.push(data@.subrange(start as int, start + size)) + chunks_of(data@.skip(start + size), size as nat)
                =~= before + chunks_of(rest, size as nat));
        }
        start = start + size;
    }
    let mut last: Vec<char> = Vec::new();
    let mut k = start;
    while k < data.len()
        invariant
            start <= k <= data@.len(),
            last@ == data@.subrange(start as int, k as int),
        decreases data@.len() - k,
    {
        last.push(data[k]);
        k += 1;
        assert(data@.subrange(start as int, k as int) == data@.subrange(start as int, k - 1).push(data@[k - 1]));
    }
    let ghost before = out@.map_values(|c: Vec<char>| c@);
    assert(last@ == data@.skip(start as int));
    out.push(last);
    assert(out@.map_values(|c: Vec<char>| c@) == before.push(data@.skip(start as int)));
    assert(chunks_of(data@.skip(start as int), size as nat) == seq![data@.skip(start as int)]);
    assert(before.push(data@.skip(start as int)) =~= before + seq![data@.skip(start as int)]);
    out
}

/// Encode PNG bytes as a Kitty graphics transmit-and-display command: the
/// base64 payload in chunks of at most [`KITTY_CHUNK`] characters, every
/// chunk but the last marked `m=1`, the first also carrying the format
/// (`f=100`), the action (`a=T`) and the placement in cells.
pub fn kitty_image(png: &[u8], cols: u16, rows: u16) -> (out: String)
    ensures
        out@ == kitty_spec(png@, cols, rows),
{
    let data = b64_encode(png);
    let cs = chars_of(data.as_str());
    let chunks = split_chunks(cs.as_slice(), KITTY_CHUNK);
    let ghost cv = chunks@.map_values(|c: Vec<char>| c@);
    let mut out = String::new();
    let mut k: usize = 0;
    while k < chunks.len()
        invariant
            k <= chunks@.len(),
            cv == chunks@.map_values(|c: Vec<char>| c@),
            cv == chunks_of(base64_of(png@), KITTY_CHUNK as nat),
            out@ + kitty_from(cv, k as int, cols, rows) == kitty_spec(png@, cols, rows),
        decreases chunks@.len() - k,
    {
        let ghost before = out@;
        push_str(&mut out, "\x1b_G");
        if k == 0 {
            push_str(&mut out, "f=100,a=T,c=");
            push_decimal(&mut out, cols as u64);
            push_str(&mut out, ",r=");
            push_decimal(&mut out, rows as u64);
            push_str(&mut out, ",m=");
        } else {
            push_str(&mut out, "m=");
        }
        push_char(&mut out, if k + 1 < chunks.len() { '1' } else { '0' });
        push_char(&mut out, ';');
        push_chars(&mut out, chunks[k].as_slice());
        push_char(&mut out, '\x1b');
        push_char(&mut out, '\\');
        proof {
            reveal_strlit("\x1b_G");
            reveal_strlit("f=100,a=T,c=");
            reveal_strlit(",r=");
            reveal_strlit(",m=");
            reveal_strlit("m=");
            assert(cv[k as int] == chunks@[k as int]@);
            assert(out@ =~= before + kitty_chunk(cv[k as int], k == 0, k + 1 < cv.len(), cols, rows));
        }
        k += 1;
    }
    out
}

// ---------------------------------------------------------------------------
// iTerm2 inline images
// ---------------------------------------------------------------------------

/// The iTerm2 inline image (OSC 1337 `File=`) for PNG bytes.
pub open spec fn iterm2_spec(png: Seq<u8>, cols: u16, rows: u16) -> Seq<char> {
    "\x1b]1337;File=inline=1;size="@ + decimal(png.len()) + ";width="@ + decimal(cols as nat)
        + "cells;height="@ + decimal(rows as nat) + "cells;preserveAspectRatio=1:"@ + base64_of(png)
        + seq!['\x07']
}

/// Encode PNG bytes as an iTerm2 inline image; width and height are in
/// cells.
pub fn iterm2_image(png: &[u8], cols: u16, rows: u16) -> (out: String)
    ensures
        out@ == iterm2_spec(png@, cols, rows),
{
    let mut out = to_owned("\x1b]1337;File=inline=1;size=");
    push_decimal(&mut out, png.len() as u64);
    push_str(&mut out, ";width=");
    push_decimal(&mut out, cols as u64);
    push_str(&mut out, "cells;height=");
    push_decimal(&mut out, rows as u64);
    push_str(&mut out, "cells;preserveAspectRatio=1:");
    let data = b64_encode(png);
    push_str(&mut out, data.as_str());
    push_char(&mut out, '\x07');
    out
}


// ---------------------------------------------------------------------------
// Sixel
// ---------------------------------------------------------------------------

/// A six-pixel column bitmask as its sixel character (`?` to `~`).
pub open spec fn sixel_char_spec(bits: u8) -> char {
    ((0x3f + (bits % 64)) as u32) as char
}

/// A six-pixel column bitmask as its sixel character (`?` to `~`).
pub fn sixel_char(bits: u8) -> (c: char)
    ensures
        c == sixel_char_spec(bits),
{
    let low = bits & 0x3f;
    assert(low == bits % 64) by (bit_vector)
        requires
            low == bits & 0x3f,
    ;
    let v: u8 = 0x3f + low;
    v as char
}

/// The cube level (0..=5) of one channel.
pub open spec fn cube_q(v: u8) -> int {
    let q = (v * 6) / 256;
    if q > 5 { 5 } else { q }
}

/// The 6x6x6 cube index of an RGB triple.
pub open spec fn cube_index_spec(r: u8, g: u8, b: u8) -> u8 {
    (cube_q(r) * 36 + cube_q(g) * 6 + cube_q(b)) as u8
}

fn quant(v: u8) -> (q: u8)
    ensures
        q == cube_q(v),
        q <= 5,
{
    let q = ((v as u16) * 6) / 256;
    if q > 5 { 5 } else { q as u8 }
}

/// Map an RGB triple onto the 6x6x6 colour cube.
pub fn cube_index(r: u8, g: u8, b: u8) -> (i: u8)
    ensures
        i == cube_index_spec(r, g, b),
        i < 216,
{
    quant(r) * 36 + quant(g) * 6 + quant(b)
}

/// A cube level as a Sixel percentage.
pub open spec fn cube_percent(v: int) -> u8 {
    (((v * 255) / 5) * 100 / 255) as u8
}

/// The cube colour for an index, as Sixel percentages (0..=100).
pub open spec fn cube_color_spec(index: u8) -> (u8, u8, u8) {
    (cube_percent((index / 36) as int), cube_percent(((index / 6) % 6) as int), cube_percent((index % 6) as int))
}

fn percent_of(v: u8) -> (p: u8)
    ensures
        p == cube_percent(v as int),
{
    let w = ((v as u32) * 255 / 5) * 100 / 255;
    w as u8
}

/// The cube colour for an index, as Sixel percentages (0..=100).
pub fn cube_color(index: u8) -> (c: (u8, u8, u8))
    ensures
        c == cube_color_spec(index),
{
    (percent_of(index / 36), percent_of((index / 6) % 6), percent_of(index % 6))
}

/// One run of a sixel row: four or more repeats as `!count char`, shorter
/// runs written out.
pub open spec fn run_text(c: char, len: nat) -> Seq<char> {
    if len >= 4 {
        seq!['!'] + decimal(len) + seq![c]
    } else {
        Seq::new(len, |i: int| c)
    }
}

/// The run-length encoding of the characters `cs`, the current run being
/// `len` repeats of `c`.
pub open spec fn rle_from(cs: Seq<char>, c: char, len: nat) -> Seq<char>
    decreases cs.len(),
{
    if cs.len() == 0 {
        run_text(c, len)
    } else if cs[0] == c {
        rle_from(cs.drop_first(), c, len + 1)
    } else {
        run_text(c, len) + rle_from(cs.drop_first(), cs[0], 1)
    }
}

/// The sixel characters of a row of bitmasks.
pub open spec fn row_chars(row: Seq<u8>) -> Seq<char> {
    row.map_values(|b: u8| sixel_char_spec(b))
}

/// The run-length encoded sixel row.
pub open spec fn rle_spec(row: Seq<u8>) -> Seq<char> {
    let cs = row_chars(row);
    if cs.len() == 0 {
        Seq::empty()
    } else {
        rle_from(cs.drop_first(), cs[0], 1)
    }
}

fn push_run(out: &mut String, c: char, len: usize)
    ensures
        final(out)@ == old(out)@ + run_text(c, len as nat),
{
    if len >= 4 {
        push_char(out, '!');
        push_decimal(out, len as u64);
        push_char(out, c);
    } else {
        let mut k: usize = 0;
        while k < len
            invariant
                k <= len,
                len < 4,
                out@ == old(out)@ + Seq::new(k as nat, |i: int| c),
            decreases len - k,
        {
            push_char(out, c);
            k += 1;
            assert(Seq::new(k as nat, |i: int| c) == Seq::new((k - 1) as nat, |i: int| c).push(c));
        }
    }
}

/// Emit one sixel row with run-length compression (`!count char`).
pub fn write_run_length(out: &mut String, row: &[u8])
    ensures
        final(out)@ == old(out)@ + rle_spec(row@),
{
    if row.len() == 0 {
        return;
    }
    let ghost cs = row_chars(row@);
    let mut run_char = sixel_char(row[0]);
    let mut run_len: usize = 1;
    let mut i: usize = 1;
    let ghost base = out@;
    proof {
        assert(cs.drop_first() == cs.skip(1));
    }
    while i < row.len()
        invariant
            1 <= i <= row@.len(),
            1 <= run_len <= i,
            cs == row_chars(row@),
            base + rle_spec(row@) == out@ + rle_from(cs.skip(i as int), run_char, run_len as nat),
        decreases row@.len() - i,
    {
        let ch = sixel_char(row[i]);
        proof {
            assert(cs.skip(i as int)[0] == cs[i as int]);
            assert(cs.skip(i as int).drop_first() == cs.skip(i + 1));
        }
        if ch == run_char {
            run_len += 1;
        } else {
            push_run(out, run_char, run_len);
            run_char = ch;
            run_len = 1;
        }
        i += 1;
    }
    push_run(out, run_char, run_len);
    assert(cs.skip(row@.len() as int).len() == 0);
}

/// The Sixel header: DCS `q` and raster attributes (aspect 1:1, image size).
pub open spec fn sixel_header(w: u32, h: u32) -> Seq<char> {
    seq!['\x1b', 'P', 'q', '"', '1', ';', '1', ';'] + decimal(w as nat) + seq![';'] + decimal(h as nat)
}

/// The number of whole pixels in an image's buffer.
pub open spec fn buffer_pixels(img: RgbImage) -> int {
    (img.pixels@.len() / 3) as int
}

/// The cube index of the `p`-th pixel of an image's buffer.
pub open spec fn buffer_index(img: RgbImage, p: int) -> u8 {
    cube_index_spec(img.pixels@[3 * p], img.pixels@[3 * p + 1], img.pixels@[3 * p + 2])
}

/// The cube index of pixel `j` of the image: that of its buffer, and 0 for
/// the pixels the buffer is too short for.
pub open spec fn index_at(img: RgbImage, j: int) -> u8 {
    if j < buffer_pixels(img) {
        buffer_index(img, j)
    } else {
        0
    }
}

/// Some pixel of the buffer has the cube colour `c`.
pub open spec fn colour_used(img: RgbImage, c: int) -> bool {
    exists|p: int| 0 <= p < buffer_pixels(img) && #[trigger] buffer_index(img, p) == c
}

/// The palette definition of register `c`: `#c;2;r;g;b`, in percent.
pub open spec fn palette_entry(c: u8) -> Seq<char> {
    let (r, g, b) = cube_color_spec(c);
    seq!['#'] + decimal(c as nat) + seq![';', '2', ';'] + decimal(r as nat) + seq![';'] + decimal(g as nat)
        + seq![';'] + decimal(b as nat)
}

/// The palette definitions of the used registers below `k`, in order.
pub open spec fn palette_upto(img: RgbImage, k: int) -> Seq<char>
    decreases k,
{
    if k <= 0 {
        Seq::empty()
    } else {
        palette_upto(img, k - 1) + if colour_used(img, k - 1) {
            palette_entry((k - 1) as u8)
        } else {
            Seq::empty()
        }
    }
}

/// The pixel at column `x` of row `y` of an indexed image of width `w`.
pub open spec fn pixel(ix: Seq<u8>, w: int, y: int, x: int) -> u8 {
    ix[y * w + x]
}

/// The last row (exclusive) of band `b` of an image of height `h`.
pub open spec fn band_bottom(b: int, h: int) -> int {
    if 6 * b + 6 < h {
        6 * b + 6
    } else {
        h
    }
}

/// The number of six-row bands of an image of height `h`.
pub open spec fn band_count(h: int) -> int {
    h / 6 + if h % 6 > 0 {
        1int
    } else {
        0
    }
}

/// Colour `c` occurs in band `b`.
pub open spec fn in_band(ix: Seq<u8>, w: int, h: int, b: int, c: int) -> bool {
    exists|y: int, x: int| 6 * b <= y < band_bottom(b, h) && 0 <= x < w && #[trigger] pixel(ix, w, y, x) == c
}

/// The colours below `k` that occur in band `b`, in order.
pub open spec fn band_colours_upto(ix: Seq<u8>, w: int, h: int, b: int, k: int) -> Seq<usize>
    decreases k,
{
    if k <= 0 {
        Seq::empty()
    } else {
        band_colours_upto(ix, w, h, b, k - 1) + if in_band(ix, w, h, b, k - 1) {
            seq![(k - 1) as usize]
        } else {
            Seq::empty()
        }
    }
}

/// Bit `k` of a sixel.
pub open spec fn sixel_bit(k: int) -> int {
    if k == 0 {
        1
    } else if k == 1 {
        2
    } else if k == 2 {
        4
    } else if k == 3 {
        8
    } else if k == 4 {
        16
    } else {
        32
    }
}

/// The sixel of column `x` for colour `c` in band `b`, from its first `k`
/// rows: bit `i` set when row `6 b + i` exists and has colour `c` there.
pub open spec fn column_bits(ix: Seq<u8>, w: int, h: int, b: int, c: int, x: int, k: int) -> int
    decreases k,
{
    if k <= 0 {
        0
    } else {
        column_bits(ix, w, h, b, c, x, k - 1) + if 6 * b + k - 1 < h && pixel(ix, w, 6 * b + k - 1, x) == c {
            sixel_bit(k - 1)
        } else {
            0
        }
    }
}

/// The sixels of colour `c` in band `b`, one per column.
pub open spec fn band_row(ix: Seq<u8>, w: int, h: int, b: int, c: int) -> Seq<u8> {
    Seq::new(w as nat, |x: int| column_bits(ix, w, h, b, c, x, 6) as u8)
}

/// Texts joined with a separator between neighbours.
pub open spec fn sep_join(ts: Seq<Seq<char>>, sep: char) -> Seq<char>
    decreases ts.len(),
{
    if ts.len() == 0 {
        Seq::empty()
    } else if ts.len() == 1 {
        ts[0]
    } else {
        sep_join(ts.drop_last(), sep) + seq![sep] + ts.last()
    }
}

/// The layer of colour `c` in band `b`: `#c` and its run-length encoded row.
pub open spec fn colour_layer(ix: Seq<u8>, w: int, h: int, b: int, c: int) -> Seq<char> {
    seq!['#'] + decimal(c as nat) + rle_spec(band_row(ix, w, h, b, c))
}

/// Band `b`: the layers of its colours, each overlaying the previous (`$`).
pub open spec fn band_text(ix: Seq<u8>, w: int, h: int, b: int) -> Seq<char> {
    sep_join(
        band_colours_upto(ix, w, h, b, 216).map_values(|c: usize| colour_layer(ix, w, h, b, c as int)),
        '$',
    )
}

/// The first `k` bands, one below the other (`-`).
pub open spec fn bands_upto(ix: Seq<u8>, w: int, h: int, k: int) -> Seq<char> {
    sep_join(Seq::new(k as nat, |b: int| band_text(ix, w, h, b)), '-')
}

/// The indexed image: the cube index of every pixel.
pub open spec fn indexed_image(img: RgbImage) -> Seq<u8> {
    Seq::new(((img.width as int) * (img.height as int)) as nat, |j: int| index_at(img, j))
}

/// The body of a Sixel image: the palette, then the bands.
pub open spec fn sixel_body_spec(img: RgbImage) -> Seq<char> {
    palette_upto(img, 216) + bands_upto(
        indexed_image(img),
        img.width as int,
        img.height as int,
        band_count(img.height as int),
    )
}

proof fn lemma_sep_join_push(ts: Seq<Seq<char>>, t: Seq<char>, sep: char)
    ensures
        sep_join(ts.push(t), sep) == if ts.len() == 0 {
            t
        } else {
            sep_join(ts, sep) + seq![sep] + t
        },
{
    assert(ts.push(t).drop_last() =~= ts);
    if ts.len() == 0 {
        assert(ts.push(t)[0] == t);
    }
}

/// The cube index of every pixel, and which registers the buffer uses.
fn index_pixels(img: &RgbImage, total: usize) -> (out: (Vec<u8>, Vec<bool>))
    requires
        total == (img.width as int) * (img.height as int),
    ensures
        out.0@ == indexed_image(*img),
        out.1@.len() == 216,
        forall|c: int| 0 <= c < 216 ==> #[trigger] out.1@[c] == colour_used(*img, c),
        forall|j: int| 0 <= j < out.0@.len() ==> #[trigger] out.0@[j] < 216,
{
    let mut indexed: Vec<u8> = Vec::new();
    let mut q: usize = 0;
    while q < total
        invariant
            q <= total,
            indexed@.len() == q,
            forall|j: int| 0 <= j < q ==> #[trigger] indexed@[j] == 0,
        decreases total - q,
    {
        indexed.push(0);
        q += 1;
    }
    let mut used: Vec<bool> = Vec::new();
    let mut u: usize = 0;
    while u < SIXEL_PALETTE_SIZE
        invariant
            u <= 216,
            used@.len() == u,
            forall|c: int| 0 <= c < u ==> !#[trigger] used@[c],
        decreases 216 - u,
    {
        used.push(false);
        u += 1;
    }
    let npix = img.pixels.len() / 3;
    assert(npix * 3 <= img.pixels@.len()) by (nonlinear_arith)
        requires
            npix == img.pixels@.len() / 3,
    ;
    let mut p: usize = 0;
    while p < npix
        invariant
            p <= npix,
            npix == buffer_pixels(*img),
            npix * 3 <= img.pixels@.len(),
            img.pixels@.len() == img.pixels.len(),
            indexed@.len() == total,
            total == (img.width as int) * (img.height as int),
            used@.len() == 216,
            forall|j: int| 0 <= j < total ==> #[trigger] indexed@[j] == if j < p { buffer_index(*img, j) } else { 0 },
            forall|c: int| 0 <= c < 216 ==> #[trigger] used@[c] == exists|r: int| 0 <= r < p && #[trigger] buffer_index(*img, r) == c,
        decreases npix - p,
    {
        assert(3 * p + 2 < img.pixels@.len()) by (nonlinear_arith)
            requires
                p < npix,
                npix * 3 <= img.pixels@.len(),
        ;
        let k = 3 * p;
        let idx = cube_index(img.pixels[k], img.pixels[k + 1], img.pixels[k + 2]);
        assert(idx == buffer_index(*img, p as int));
        if p < total {
            indexed.set(p, idx);
        }
        let ghost before = used@;
        used.set(idx as usize, true);
        proof {
            assert forall|c: int| 0 <= c < 216 implies #[trigger] used@[c] == exists|r: int| 0 <= r < p + 1 && #[trigger] buffer_index(*img, r) == c by {
                if c == idx as int {
                    assert(buffer_index(*img, p as int) == c);
                } else {
                    assert(used@[c] == before[c]);
                    if exists|r: int| 0 <= r < p + 1 && #[trigger] buffer_index(*img, r) == c {
                        let r = choose|r: int| 0 <= r < p + 1 && #[trigger] buffer_index(*img, r) == c;
                        assert(r < p);
                    }
                }
            }
        }
        p += 1;
    }
    proof {
        assert forall|j: int| 0 <= j < indexed@.len() implies #[trigger] indexed@[j] < 216 by {
            if j < p {
                let px = img.pixels@;
                assert(cube_index_spec(px[3 * j], px[3 * j + 1], px[3 * j + 2]) < 216) by {
                    lemma_cube_index_bound(px[3 * j], px[3 * j + 1], px[3 * j + 2]);
                }
            }
        }
        assert(indexed@ =~= indexed_image(*img));
    }
    (indexed, used)
}

proof fn lemma_cube_index_bound(r: u8, g: u8, b: u8)
    ensures
        cube_index_spec(r, g, b) < 216,
{
    assert(0 <= cube_q(r) <= 5 && 0 <= cube_q(g) <= 5 && 0 <= cube_q(b) <= 5) by {
        assert((r as int) * 6 / 256 >= 0) by (nonlinear_arith);
        assert((g as int) * 6 / 256 >= 0) by (nonlinear_arith);
        assert((b as int) * 6 / 256 >= 0) by (nonlinear_arith);
    }
}

/// The palette definitions of the used registers.
fn push_palette(out: &mut String, used: &Vec<bool>, img: Ghost<RgbImage>)
    requires
        used@.len() == 216,
        forall|c: int| 0 <= c < 216 ==> #[trigger] used@[c] == colour_used(img@, c),
    ensures
        final(out)@ == old(out)@ + palette_upto(img@, 216),
{
    let ghost base = out@;
    let mut c: usize = 0;
    while c < SIXEL_PALETTE_SIZE
        invariant
            c <= 216,
            used@.len() == 216,
            forall|k: int| 0 <= k < 216 ==> #[trigger] used@[k] == colour_used(img@, k),
            out@ == base + palette_upto(img@, c as int),
        decreases 216 - c,
    {
        let ghost before = out@;
        if used[c] {
            let (r, g, b) = cube_color(c as u8);
            push_char(out, '#');
            push_decimal(out, c as u64);
            push_str(out, ";2;");
            push_decimal(out, r as u64);
            push_char(out, ';');
            push_decimal(out, g as u64);
            push_char(out, ';');
            push_decimal(out, b as u64);
            proof {
                reveal_strlit(";2;");
                assert(out@ =~= before + palette_entry(c as u8));
            }
        } else {
            assert(out@ =~= before + Seq::<char>::empty());
        }
        c += 1;
    }
}

/// The colours that occur in band `band`, in order.
fn band_colours(ix: &Vec<u8>, width: usize, height: usize, band: usize) -> (colours: Vec<usize>)
    requires
        ix@.len() == width * height,
        width * height <= usize::MAX,
        6 * band < height,
        width >= 1,
        forall|j: int| 0 <= j < ix@.len() ==> #[trigger] ix@[j] < 216,
    ensures
        colours@ == band_colours_upto(ix@, width as int, height as int, band as int, 216),
{
    let top = band * 6;
    let bottom = if height - top > 6 { top + 6 } else { height };
    assert(bottom == band_bottom(band as int, height as int));
    let mut band_used: Vec<bool> = Vec::new();
    let mut u: usize = 0;
    while u < SIXEL_PALETTE_SIZE
        invariant
            u <= 216,
            band_used@.len() == u,
            forall|c: int| 0 <= c < u ==> !#[trigger] band_used@[c],
        decreases 216 - u,
    {
        band_used.push(false);
        u += 1;
    }
    let ghost w = width as int;
    let ghost h = height as int;
    let ghost b = band as int;
    let mut y = top;
    while y < bottom
        invariant
            top <= y <= bottom,
            top == 6 * band,
            bottom == band_bottom(b, h),
            bottom <= height,
            w == width,
            h == height,
            b == band,
            ix@.len() == width * height,
            width * height <= usize::MAX,
            forall|j: int| 0 <= j < ix@.len() ==> #[trigger] ix@[j] < 216,
            band_used@.len() == 216,
            forall|c: int|
                0 <= c < 216 ==> #[trigger] band_used@[c] == exists|yy: int, xx: int|
                    top <= yy < y && 0 <= xx < w && #[trigger] pixel(ix@, w, yy, xx) == c,
        decreases bottom - y,
    {
        let mut x: usize = 0;
        while x < width
            invariant
                x <= width,
                top <= y < bottom <= height,
                w == width,
                ix@.len() == width * height,
                width * height <= usize::MAX,
                forall|j: int| 0 <= j < ix@.len() ==> #[trigger] ix@[j] < 216,
                band_used@.len() == 216,
                forall|c: int|
                    0 <= c < 216 ==> #[trigger] band_used@[c] == ((exists|yy: int, xx: int|
                        top <= yy < y && 0 <= xx < w && #[trigger] pixel(ix@, w, yy, xx) == c) || (exists|xx: int|
                        0 <= xx < x && #[trigger] pixel(ix@, w, y as int, xx) == c)),
            decreases width - x,
        {
            assert(y * width + x < width * height) by (nonlinear_arith)
                requires
                    y < height,
                    x < width,
            ;
            let idx = ix[y * width + x];
            assert(idx == pixel(ix@, w, y as int, x as int));
            let ghost before = band_used@;
            band_used.set(idx as usize, true);
            proof {
                assert forall|c: int| 0 <= c < 216 implies #[trigger] band_used@[c] == ((exists|yy: int, xx: int|
                    top <= yy < y && 0 <= xx < w && #[trigger] pixel(ix@, w, yy, xx) == c) || (exists|xx: int|
                    0 <= xx < x + 1 && #[trigger] pixel(ix@, w, y as int, xx) == c)) by {
                    if c == idx as int {
                        assert(pixel(ix@, w, y as int, x as int) == c);
                    } else {
                        assert(band_used@[c] == before[c]);
                        if exists|xx: int| 0 <= xx < x + 1 && #[trigger] pixel(ix@, w, y as int, xx) == c {
                            let xx = choose|xx: int| 0 <= xx < x + 1 && #[trigger] pixel(ix@, w, y as int, xx) == c;
                            assert(xx < x);
                        }
                    }
                }
            }
            x += 1;
        }
        proof {
            assert forall|c: int| 0 <= c < 216 implies #[trigger] band_used@[c] == exists|yy: int, xx: int|
                top <= yy < y + 1 && 0 <= xx < w && #[trigger] pixel(ix@, w, yy, xx) == c by {
                if exists|yy: int, xx: int| top <= yy < y + 1 && 0 <= xx < w && #[trigger] pixel(ix@, w, yy, xx) == c {
                    let (yy, xx) = choose|yy: int, xx: int|
                        top <= yy < y + 1 && 0 <= xx < w && #[trigger] pixel(ix@, w, yy, xx) == c;
                    if yy == y {
                        assert(pixel(ix@, w, y as int, xx) == c);
                    } else {
                        assert(pixel(ix@, w, yy, xx) == c);
                    }
                }
            }
        }
        y += 1;
    }
    let mut colours: Vec<usize> = Vec::new();
    let mut c: usize = 0;
    while c < SIXEL_PALETTE_SIZE
        invariant
            c <= 216,
            band_used@.len() == 216,
            forall|k: int| 0 <= k < 216 ==> #[trigger] band_used@[k] == in_band(ix@, w, h, b, k),
            colours@ == band_colours_upto(ix@, w, h, b, c as int),
        decreases 216 - c,
    {
        if band_used[c] {
            colours.push(c);
        }
        c += 1;
    }
    colours
}

proof fn lemma_or_bit(v: u8, k: u8)
    requires
        k < 6,
        (v as int) < sixel_bit(k as int),
    ensures
        (v | (1u8 << k)) as int == v + sixel_bit(k as int),
        (v | (1u8 << k)) < 64,
{
    if k == 0 {
        assert(v | (1u8 << 0u8) == v + 1 && v + 1 < 64) by (bit_vector)
            requires
                v < 1,
        ;
    } else if k == 1 {
        assert(v | (1u8 << 1u8) == v + 2 && v + 2 < 64) by (bit_vector)
            requires
                v < 2,
        ;
    } else if k == 2 {
        assert(v | (1u8 << 2u8) == v + 4 && v + 4 < 64) by (bit_vector)
            requires
                v < 4,
        ;
    } else if k == 3 {
        assert(v | (1u8 << 3u8) == v + 8 && v + 8 < 64) by (bit_vector)
            requires
                v < 8,
        ;
    } else if k == 4 {
        assert(v | (1u8 << 4u8) == v + 16 && v + 16 < 64) by (bit_vector)
            requires
                v < 16,
        ;
    } else {
        assert(v | (1u8 << 5u8) == v + 32 && v + 32 < 64) by (bit_vector)
            requires
                v < 32,
        ;
    }
}

proof fn lemma_column_bits_bound(ix: Seq<u8>, w: int, h: int, b: int, c: int, x: int, k: int)
    requires
        0 <= k <= 6,
    ensures
        0 <= column_bits(ix, w, h, b, c, x, k) < if k == 0 { 1int } else { sixel_bit(k - 1) * 2 },
    decreases k,
{
    if k > 0 {
        lemma_column_bits_bound(ix, w, h, b, c, x, k - 1);
    }
}

/// The sixels of colour `colour` in band `band`.
fn band_row_of(ix: &Vec<u8>, width: usize, height: usize, band: usize, colour: usize) -> (row: Vec<u8>)
    requires
        ix@.len() == width * height,
        width * height <= usize::MAX,
        6 * band < height,
    ensures
        row@ == band_row(ix@, width as int, height as int, band as int, colour as int),
{
    let ghost w = width as int;
    let ghost h = height as int;
    let ghost b = band as int;
    let top = band * 6;
    let mut row: Vec<u8> = Vec::new();
    let mut x: usize = 0;
    while x < width
        invariant
            x <= width,
            row@.len() == x,
            forall|j: int| 0 <= j < x ==> #[trigger] row@[j] == 0,
        decreases width - x,
    {
        row.push(0);
        x += 1;
    }
    let mut bit: usize = 0;
    while bit < 6
        invariant
            bit <= 6,
            top == 6 * band,
            w == width,
            h == height,
            b == band,
            6 * band < height,
            ix@.len() == width * height,
            width * height <= usize::MAX,
            row@.len() == width,
            forall|j: int| 0 <= j < width ==> #[trigger] row@[j] == column_bits(ix@, w, h, b, colour as int, j, bit as int),
        decreases 6 - bit,
    {
        if bit >= height - top {
            proof {
                assert forall|j: int| 0 <= j < width implies #[trigger] row@[j] == column_bits(ix@, w, h, b, colour as int, j, bit + 1) by {
                }
            }
            bit += 1;
            continue;
        }
        let y = top + bit;
        let mut x: usize = 0;
        while x < width
            invariant
                x <= width,
                bit < 6,
                y == top + bit,
                y < height,
                top == 6 * band,
                w == width,
                h == height,
                b == band,
                ix@.len() == width * height,
                width * height <= usize::MAX,
                row@.len() == width,
                forall|j: int| 0 <= j < x ==> #[trigger] row@[j] == column_bits(ix@, w, h, b, colour as int, j, bit + 1),
                forall|j: int| x <= j < width ==> #[trigger] row@[j] == column_bits(ix@, w, h, b, colour as int, j, bit as int),
            decreases width - x,
        {
            proof {
                lemma_column_bits_bound(ix@, w, h, b, colour as int, x as int, bit as int);
            }
            {
                assert(y * width + x < width * height) by (nonlinear_arith)
                    requires
                        y < height,
                        x < width,
                ;
                if ix[y * width + x] as usize == colour {
                    assert(pixel(ix@, w, y as int, x as int) == colour);
                    let old_bits = row[x];
                    assert(old_bits < sixel_bit(bit as int)) by {
                        if bit > 0 {
                            assert(sixel_bit(bit - 1) * 2 == sixel_bit(bit as int));
                        }
                    }
                    proof {
                        lemma_or_bit(old_bits, bit as u8);
                    }
                    let mask: u8 = 1u8 << (bit as u8);
                    row.set(x, old_bits | mask);
                } else {
                    assert(pixel(ix@, w, y as int, x as int) != colour);
                }
            }
            x += 1;
        }
        bit += 1;
    }
    proof {
        assert forall|j: int| 0 <= j < width implies #[trigger] row@[j] == column_bits(ix@, w, h, b, colour as int, j, 6) as u8 by {
            lemma_column_bits_bound(ix@, w, h, b, colour as int, j, 6);
        }
        assert(row@ =~= band_row(ix@, w, h, b, colour as int));
    }
    row
}

/// The bands of an indexed image.
fn push_bands(out: &mut String, ix: &Vec<u8>, width: usize, height: usize)
    requires
        ix@.len() == width * height,
        width * height <= usize::MAX,
        width >= 1,
        height >= 1,
        forall|j: int| 0 <= j < ix@.len() ==> #[trigger] ix@[j] < 216,
    ensures
        final(out)@ == old(out)@ + bands_upto(ix@, width as int, height as int, band_count(height as int)),
{
    let ghost w = width as int;
    let ghost h = height as int;
    let ghost base = out@;
    let bands = height / 6 + if height % 6 > 0 { 1 } else { 0 };
    let mut band: usize = 0;
    while band < bands
        invariant
            band <= bands,
            bands == band_count(h),
            w == width,
            h == height,
            height >= 1,
            width >= 1,
            ix@.len() == width * height,
            width * height <= usize::MAX,
            forall|j: int| 0 <= j < ix@.len() ==> #[trigger] ix@[j] < 216,
            out@ == base + bands_upto(ix@, w, h, band as int),
        decreases bands - band,
    {
        assert(band * 6 < height) by (nonlinear_arith)
            requires
                band < bands,
                bands == height / 6 + if height % 6 > 0 { 1usize } else { 0usize },
        ;
        let ghost b = band as int;
        let ghost start = out@;
        if band > 0 {
            push_char(out, '-');
        }
        let ghost mid = out@;
        let colours = band_colours(ix, width, height, band);
        let ghost layers = colours@.map_values(|c: usize| colour_layer(ix@, w, h, b, c as int));
        let mut n: usize = 0;
        while n < colours.len()
            invariant
                n <= colours@.len(),
                6 * band < height,
                ix@.len() == width * height,
                width * height <= usize::MAX,
                w == width,
                h == height,
                b == band,
                layers == colours@.map_values(|c: usize| colour_layer(ix@, w, h, b, c as int)),
                out@ == mid + sep_join(layers.take(n as int), '$'),
            decreases colours@.len() - n,
        {
            let ghost before = out@;
            if n > 0 {
                push_char(out, '$');
            }
            let colour = colours[n];
            let row = band_row_of(ix, width, height, band, colour);
            push_char(out, '#');
            push_decimal(out, colour as u64);
            write_run_length(out, row.as_slice());
            proof {
                assert(layers.take(n + 1) =~= layers.take(n as int).push(layers[n as int]));
                lemma_sep_join_push(layers.take(n as int), layers[n as int], '$');
                if n > 0 {
                    assert(out@ =~= before + seq!['$'] + colour_layer(ix@, w, h, b, colour as int));
                } else {
                    assert(out@ =~= before + colour_layer(ix@, w, h, b, colour as int));
                }
            }
            n += 1;
        }
        proof {
            assert(layers.take(colours@.len() as int) == layers);
            assert(band_text(ix@, w, h, b) == sep_join(layers, '$'));
            let bt = Seq::new((band + 1) as nat, |k: int| band_text(ix@, w, h, k));
            assert(bt =~= Seq::new(band as nat, |k: int| band_text(ix@, w, h, k)).push(band_text(ix@, w, h, b)));
            lemma_sep_join_push(Seq::new(band as nat, |k: int| band_text(ix@, w, h, k)), band_text(ix@, w, h, b), '-');
            if band > 0 {
                assert(out@ =~= start + seq!['-'] + band_text(ix@, w, h, b));
            } else {
                assert(out@ =~= start + band_text(ix@, w, h, b));
            }
        }
        band += 1;
    }
}

/// Encode an RGB image as a Sixel sequence, using the fixed 6x6x6 colour
/// cube as palette: the header with the raster size, the definitions of the
/// registers the pixels use, then one band of six rows at a time, each
/// colour of a band run-length encoded, and the string terminator.
pub fn sixel_image(img: &RgbImage) -> (out: String)
    requires
        (img.width as int) * (img.height as int) <= usize::MAX,
    ensures
        img.width == 0 || img.height == 0 ==> out@ == sixel_header(img.width, img.height) + st(),
        img.width > 0 && img.height > 0 ==> out@ == sixel_header(img.width, img.height) + sixel_body_spec(*img)
            + st(),
{
    let mut out = String::new();
    push_str(&mut out, "\x1bPq\"1;1;");
    push_decimal(&mut out, img.width as u64);
    push_char(&mut out, ';');
    push_decimal(&mut out, img.height as u64);
    proof {
        reveal_strlit("\x1bPq\"1;1;");
    }
    assert(out@ =~= sixel_header(img.width, img.height));
    if img.width == 0 || img.height == 0 {
        push_char(&mut out, '\x1b');
        push_char(&mut out, '\\');
        assert(out@ =~= sixel_header(img.width, img.height) + st());
        return out;
    }
    let ghost head = out@;
    let width = img.width as usize;
    let height = img.height as usize;
    let total = width * height;
    let (indexed, used) = index_pixels(img, total);
    push_palette(&mut out, &used, Ghost(*img));
    push_bands(&mut out, &indexed, width, height);
    push_char(&mut out, '\x1b');
    push_char(&mut out, '\\');
    assert(out@ =~= head + sixel_body_spec(*img) + st());
    out
}

// ---------------------------------------------------------------------------
// Dispatch
// ---------------------------------------------------------------------------

/// The PNG form of a source, as the encoders see it.
pub open spec fn png_form(src: ImageSource) -> Option<Seq<u8>> {
    match src {
        ImageSource::Png(b) => Some(b@),
        ImageSource::Rgb(img) => png_encoding(img.width, img.height, img.pixels@),
    }
}

impl ImageSupport {
    /// Encode `source` for this protocol at the given cell footprint.
    ///
    /// Returns `None` for [`ImageSupport::NoImage`] and whenever the image
    /// cannot be converted into the form the protocol needs (or, for Sixel,
    /// has more pixels than memory can index); the caller then falls back to
    /// text. The result is not tmux-wrapped.
    pub fn encode(&self, source: &ImageSource, cols: u16, rows: u16) -> (out: Option<String>)
        requires
            *source matches ImageSource::Rgb(img) ==> rgb_ok(img),
        ensures
            match *self {
                ImageSupport::NoImage => out is None,
                ImageSupport::Kitty => match png_form(*source) {
                    Some(b) => out matches Some(s) && s@ == kitty_spec(b, cols, rows),
                    None => out is None,
                },
                ImageSupport::Iterm2 => match png_form(*source) {
                    Some(b) => out matches Some(s) && s@ == iterm2_spec(b, cols, rows),
                    None => out is None,
                },
                ImageSupport::Sixel => match *source {
                    ImageSource::Png(b) => png_decoding(b@) is None ==> out is None,
                    ImageSource::Rgb(_) => true,
                },
            },
    {
        match self {
            ImageSupport::NoImage => None,
            ImageSupport::Kitty => match source.to_png() {
                Some(png) => Some(kitty_image(png.as_slice(), cols, rows)),
                None => None,
            },
            ImageSupport::Iterm2 => match source.to_png() {
                Some(png) => Some(iterm2_image(png.as_slice(), cols, rows)),
                None => None,
            },
            ImageSupport::Sixel => match source.to_rgb() {
                Some(img) => {
                    let w = img.width as u64;
                    let h = img.height as u64;
                    assert(w * h <= 0xffff_fffe_0000_0001) by (nonlinear_arith)
                        requires
                            w <= 0xffff_ffff,
                            h <= 0xffff_ffff,
                    ;
                    let wh = w * h;
                    if wh <= usize::MAX as u64 {
                        Some(sixel_image(&img))
                    } else {
                        None
                    }
                },
                None => None,
            },
        }
    }

    /// [`ImageSupport::encode`] plus tmux passthrough wrapping when `tmux` is
    /// true.
    pub fn encode_for_tmux(&self, source: &ImageSource, cols: u16, rows: u16, tmux: bool) -> (out: Option<String>)
        requires
            *source matches ImageSource::Rgb(img) ==> rgb_ok(img),
        ensures
            (*self == ImageSupport::NoImage) ==> out is None,
            match *self {
                ImageSupport::Kitty => match png_form(*source) {
                    Some(b) => out matches Some(s) && s@ == if tmux {
                        tmux_wrap(kitty_spec(b, cols, rows))
                    } else {
                        kitty_spec(b, cols, rows)
                    },
                    None => out is None,
                },
                ImageSupport::Iterm2 => match png_form(*source) {
                    Some(b) => out matches Some(s) && s@ == if tmux {
                        tmux_wrap(iterm2_spec(b, cols, rows))
                    } else {
                        iterm2_spec(b, cols, rows)
                    },
                    None => out is None,
                },
                _ => true,
            },
    {
        match self.encode(source, cols, rows) {
            Some(s) => Some(maybe_tmux(s, tmux)),
            None => None,
        }
    }
}

// ---------------------------------------------------------------------------
// Laws
// ---------------------------------------------------------------------------

/// Kitty payload chunks never exceed the limit and, put back together, are
/// the payload: splitting loses nothing and adds nothing.
pub proof fn law_chunks_bounded_and_complete(data: Seq<char>, size: nat)
    requires
        size > 0,
    ensures
        chunks_of(data, size).len() >= 1,
        forall|i: int| 0 <= i < chunks_of(data, size).len() ==> (#[trigger] chunks_of(data, size)[i]).len() <= size,
        chunks_of(data, size).flatten() == data,
    decreases data.len(),
{
    if data.len() <= size {
        assert(chunks_of(data, size) == seq![data]);
        assert(seq![data].flatten() =~= data) by {
            reveal_with_fuel(Seq::flatten, 2);
        }
    } else {
        let rest = data.skip(size as int);
        law_chunks_bounded_and_complete(rest, size);
        let head = seq![data.take(size as int)];
        assert(chunks_of(data, size) == head + chunks_of(rest, size));
        vstd::seq_lib::lemma_flatten_concat(head, chunks_of(rest, size));
        assert(head.flatten() =~= data.take(size as int)) by {
            reveal_with_fuel(Seq::flatten, 2);
        }
        assert(data.take(size as int) + rest =~= data);
        assert forall|i: int| 0 <= i < chunks_of(data, size).len() implies (#[trigger] chunks_of(data, size)[i]).len() <= size by {
            if i > 0 {
                assert(chunks_of(data, size)[i] == chunks_of(rest, size)[i - 1]);
            }
        }
    }
}

/// A hyperlink target cannot smuggle escapes: what follows `ESC ] 8 ; ;`
/// in the link start holds no control character (no `ESC`, no `BEL`) and no
/// `;`, and the sequence ends with the string terminator.
pub proof fn law_osc8_target_is_clean(url: Seq<char>)
    ensures
        osc8_start_spec(url) == seq!['\x1b', ']', '8', ';', ';'] + clean_url(url) + st(),
        forall|i: int| 0 <= i < clean_url(url).len() ==> !is_control(#[trigger] clean_url(url)[i])
            && clean_url(url)[i] != ';',
{
    url.filter_lemma(|c: char| url_keep(c));
}

} // verus!
