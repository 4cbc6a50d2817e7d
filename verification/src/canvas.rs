//! The framebuffer the panel draws on: rows of `stride` bytes holding
//! `width` pixels of four bytes each (blue, green, red, unused), a
//! horizontal origin that shifts drawing during page swipes, opaque and
//! alpha-blended pixel writes, clipped rectangle fills, RGBA images, the
//! built-in 5×7 bitmap font and the BMP encoding of a screenshot.
//!
//! Every drawing operation is specified byte by byte: a byte `k` of the
//! buffer lies in row `k / stride`, pixel column `(k % stride) / 4` and
//! channel `(k % stride) % 4`.
use vstd::prelude::*;
use vstd::arithmetic::div_mod::{lemma_fundamental_div_mod, lemma_fundamental_div_mod_converse};

verus! {

// ── Geometry of the buffer ─────────────────────────────────

pub open spec fn byte_row(stride: int, k: int) -> int {
    k / stride
}

pub open spec fn byte_col(stride: int, k: int) -> int {
    (k % stride) / 4
}

pub open spec fn byte_chan(stride: int, k: int) -> int {
    (k % stride) % 4
}

/// Byte `c` of a colour, least significant first: blue, green, red, top.
pub open spec fn color_byte(color: u32, c: int) -> u8 {
    (if c == 0 {
        color % 0x100
    } else if c == 1 {
        (color / 0x100) % 0x100
    } else if c == 2 {
        (color / 0x1_0000) % 0x100
    } else {
        color / 0x100_0000
    }) as u8
}

/// The byte an opaque pixel write stores in channel `c`: the colour's
/// blue, green and red, and zero in the unused byte.
pub open spec fn opaque_byte(color: u32, c: int) -> u8 {
    if c < 3 {
        color_byte(color, c)
    } else {
        0
    }
}

/// A channel of `fg` laid over `bg` with coverage `alpha` of 255, rounded.
pub open spec fn blend(fg: int, bg: int, alpha: int) -> int {
    (fg * alpha + bg * (255 - alpha) + 127) / 255
}

/// A byte after blending `color` with coverage `alpha` onto it: unchanged
/// when `alpha` is zero, an opaque write when it is 255, else the three
/// colour channels blended and the unused byte kept.
pub open spec fn blended_byte(old: u8, color: u32, alpha: u8, c: int) -> u8 {
    if alpha == 0 {
        old
    } else if alpha == 255 {
        opaque_byte(color, c)
    } else if c < 3 {
        blend(color_byte(color, c) as int, old as int, alpha as int) as u8
    } else {
        old
    }
}

/// Byte `k` lies in the pixel rectangle `[x0, x1) × [y0, y1)`.
pub open spec fn in_box(stride: int, k: int, x0: int, y0: int, x1: int, y1: int) -> bool {
    y0 <= byte_row(stride, k) < y1 && x0 <= byte_col(stride, k) < x1
}

pub open spec fn max(a: int, b: int) -> int {
    if a >= b {
        a
    } else {
        b
    }
}

pub open spec fn min(a: int, b: int) -> int {
    if a <= b {
        a
    } else {
        b
    }
}

/// The byte positions of pixel `(x, y)` are exactly the bytes whose row,
/// column and channel say so.
pub proof fn lemma_byte_at(stride: int, k: int, x: int, y: int, c: int)
    requires
        stride > 0,
        0 <= k,
        0 <= x,
        4 * x + 4 <= stride,
        0 <= y,
        0 <= c < 4,
    ensures
        (k == y * stride + 4 * x + c) == (byte_row(stride, k) == y && byte_col(stride, k) == x
            && byte_chan(stride, k) == c),
{
    if k == y * stride + 4 * x + c {
        lemma_fundamental_div_mod_converse(k, stride, y, 4 * x + c);
    }
    if byte_row(stride, k) == y && byte_col(stride, k) == x && byte_chan(stride, k) == c {
        lemma_fundamental_div_mod(k, stride);
        assert(k % stride == 4 * ((k % stride) / 4) + (k % stride) % 4);
        assert(stride * (k / stride) == y * stride) by (nonlinear_arith)
            requires
                k / stride == y,
        ;
    }
}

/// A row of `stride` bytes below row `y` still lies in a buffer of
/// `height` rows.
proof fn lemma_row_fits(stride: int, y: int, height: int)
    requires
        0 <= y < height,
        stride >= 0,
    ensures
        y * stride + stride <= stride * height,
        0 <= y * stride,
{
    assert(y * stride + stride <= stride * height) by (nonlinear_arith)
        requires
            0 <= y < height,
            stride >= 0,
    ;
    assert(0 <= y * stride) by (nonlinear_arith)
        requires
            0 <= y,
            stride >= 0,
    ;
}

/// The blend of two channel values stays a channel value.
proof fn lemma_blend_bounds(fg: int, bg: int, alpha: int)
    requires
        0 <= fg <= 255,
        0 <= bg <= 255,
        0 <= alpha <= 255,
    ensures
        0 <= fg * alpha <= 255 * 255,
        0 <= bg * (255 - alpha) <= 255 * 255,
        fg * alpha + bg * (255 - alpha) <= 255 * 255,
        0 <= blend(fg, bg, alpha) <= 255,
{
    assert(0 <= fg * alpha <= 255 * 255) by (nonlinear_arith)
        requires
            0 <= fg <= 255,
            0 <= alpha <= 255,
    ;
    assert(0 <= bg * (255 - alpha) <= 255 * 255) by (nonlinear_arith)
        requires
            0 <= bg <= 255,
            0 <= alpha <= 255,
    ;
    assert(fg * alpha + bg * (255 - alpha) <= 255 * 255) by (nonlinear_arith)
        requires
            0 <= fg <= 255,
            0 <= bg <= 255,
            0 <= alpha <= 255,
    ;
}

// ── Bitmap font ──────────────────────────────────────────

/// The rows of the built-in 5×7 glyph of a character, most significant of
/// the five low bits leftmost; letters in either case share a glyph and
/// characters without one are blank.
pub open spec fn glyph_rows(ch: char) -> Seq<u8> {
    match ch {
        'A' | 'a' => seq![14, 17, 17, 31, 17, 17, 17],
        'B' | 'b' => seq![30, 17, 17, 30, 17, 17, 30],
        'C' | 'c' => seq![14, 17, 16, 16, 16, 17, 14],
        'D' | 'd' => seq![30, 17, 17, 17, 17, 17, 30],
        'E' | 'e' => seq![31, 16, 16, 30, 16, 16, 31],
        'F' | 'f' => seq![31, 16, 16, 30, 16, 16, 16],
        'G' | 'g' => seq![14, 17, 16, 23, 17, 17, 15],
        'H' | 'h' => seq![17, 17, 17, 31, 17, 17, 17],
        'I' | 'i' => seq![31, 4, 4, 4, 4, 4, 31],
        'J' | 'j' => seq![1, 1, 1, 1, 17, 17, 14],
        'K' | 'k' => seq![17, 18, 20, 24, 20, 18, 17],
        'L' | 'l' => seq![16, 16, 16, 16, 16, 16, 31],
        'M' | 'm' => seq![17, 27, 21, 21, 17, 17, 17],
        'N' | 'n' => seq![17, 25, 21, 19, 17, 17, 17],
        'O' | 'o' => seq![14, 17, 17, 17, 17, 17, 14],
        'P' | 'p' => seq![30, 17, 17, 30, 16, 16, 16],
        'Q' | 'q' => seq![14, 17, 17, 17, 21, 18, 13],
        'R' | 'r' => seq![30, 17, 17, 30, 20, 18, 17],
        'S' | 's' => seq![15, 16, 16, 14, 1, 1, 30],
        'T' | 't' => seq![31, 4, 4, 4, 4, 4, 4],
        'U' | 'u' => seq![17, 17, 17, 17, 17, 17, 14],
        'V' | 'v' => seq![17, 17, 17, 17, 17, 10, 4],
        'W' | 'w' => seq![17, 17, 17, 21, 21, 21, 10],
        'X' | 'x' => seq![17, 17, 10, 4, 10, 17, 17],
        'Y' | 'y' => seq![17, 17, 10, 4, 4, 4, 4],
        'Z' | 'z' => seq![31, 1, 2, 4, 8, 16, 31],
        '0' => seq![14, 17, 19, 21, 25, 17, 14],
        '1' => seq![4, 12, 20, 4, 4, 4, 31],
        '2' => seq![14, 17, 1, 2, 4, 8, 31],
        '3' => seq![30, 1, 1, 14, 1, 1, 30],
        '4' => seq![2, 6, 10, 18, 31, 2, 2],
        '5' => seq![31, 16, 16, 30, 1, 1, 30],
        '6' => seq![14, 16, 16, 30, 17, 17, 14],
        '7' => seq![31, 1, 2, 4, 8, 8, 8],
        '8' => seq![14, 17, 17, 14, 17, 17, 14],
        '9' => seq![14, 17, 17, 15, 1, 1, 14],
        ':' => seq![0, 4, 4, 0, 4, 4, 0],
        '.' => seq![0, 0, 0, 0, 0, 12, 12],
        ',' => seq![0, 0, 0, 0, 4, 4, 8],
        '/' => seq![1, 2, 2, 4, 8, 8, 16],
        '-' => seq![0, 0, 0, 31, 0, 0, 0],
        '_' => seq![0, 0, 0, 0, 0, 0, 31],
        '%' => seq![25, 25, 2, 4, 8, 19, 19],
        '+' => seq![0, 4, 4, 31, 4, 4, 0],
        '(' => seq![2, 4, 8, 8, 8, 4, 2],
        ')' => seq![8, 4, 2, 2, 2, 4, 8],
        _ => seq![0, 0, 0, 0, 0, 0, 0],
    }
}

/// The glyph of `ch` in the built-in bitmap font.
pub fn glyph(ch: char) -> (r: [u8; 7])
    ensures
        r@ == glyph_rows(ch),
{
    let r: [u8; 7] = match ch {
        'A' | 'a' => [14, 17, 17, 31, 17, 17, 17],
        'B' | 'b' => [30, 17, 17, 30, 17, 17, 30],
        'C' | 'c' => [14, 17, 16, 16, 16, 17, 14],
        'D' | 'd' => [30, 17, 17, 17, 17, 17, 30],
        'E' | 'e' => [31, 16, 16, 30, 16, 16, 31],
        'F' | 'f' => [31, 16, 16, 30, 16, 16, 16],
        'G' | 'g' => [14, 17, 16, 23, 17, 17, 15],
        'H' | 'h' => [17, 17, 17, 31, 17, 17, 17],
        'I' | 'i' => [31, 4, 4, 4, 4, 4, 31],
        'J' | 'j' => [1, 1, 1, 1, 17, 17, 14],
        'K' | 'k' => [17, 18, 20, 24, 20, 18, 17],
        'L' | 'l' => [16, 16, 16, 16, 16, 16, 31],
        'M' | 'm' => [17, 27, 21, 21, 17, 17, 17],
        'N' | 'n' => [17, 25, 21, 19, 17, 17, 17],
        'O' | 'o' => [14, 17, 17, 17, 17, 17, 14],
        'P' | 'p' => [30, 17, 17, 30, 16, 16, 16],
        'Q' | 'q' => [14, 17, 17, 17, 21, 18, 13],
        'R' | 'r' => [30, 17, 17, 30, 20, 18, 17],
        'S' | 's' => [15, 16, 16, 14, 1, 1, 30],
        'T' | 't' => [31, 4, 4, 4, 4, 4, 4],
        'U' | 'u' => [17, 17, 17, 17, 17, 17, 14],
        'V' | 'v' => [17, 17, 17, 17, 17, 10, 4],
        'W' | 'w' => [17, 17, 17, 21, 21, 21, 10],
        'X' | 'x' => [17, 17, 10, 4, 10, 17, 17],
        'Y' | 'y' => [17, 17, 10, 4, 4, 4, 4],
        'Z' | 'z' => [31, 1, 2, 4, 8, 16, 31],
        '0' => [14, 17, 19, 21, 25, 17, 14],
        '1' => [4, 12, 20, 4, 4, 4, 31],
        '2' => [14, 17, 1, 2, 4, 8, 31],
        '3' => [30, 1, 1, 14, 1, 1, 30],
        '4' => [2, 6, 10, 18, 31, 2, 2],
        '5' => [31, 16, 16, 30, 1, 1, 30],
        '6' => [14, 16, 16, 30, 17, 17, 14],
        '7' => [31, 1, 2, 4, 8, 8, 8],
        '8' => [14, 17, 17, 14, 17, 17, 14],
        '9' => [14, 17, 17, 15, 1, 1, 14],
        ':' => [0, 4, 4, 0, 4, 4, 0],
        '.' => [0, 0, 0, 0, 0, 12, 12],
        ',' => [0, 0, 0, 0, 4, 4, 8],
        '/' => [1, 2, 2, 4, 8, 8, 16],
        '-' => [0, 0, 0, 31, 0, 0, 0],
        '_' => [0, 0, 0, 0, 0, 0, 31],
        '%' => [25, 25, 2, 4, 8, 19, 19],
        '+' => [0, 4, 4, 31, 4, 4, 0],
        '(' => [2, 4, 8, 8, 8, 4, 2],
        ')' => [8, 4, 2, 2, 2, 4, 8],
        _ => [0; 7],
    };
    assert(r@ =~= glyph_rows(ch));
    r
}

/// Weight of column `c` (0 = leftmost) of a glyph row.
pub open spec fn column_weight(c: int) -> int {
    if c == 0 {
        16
    } else if c == 1 {
        8
    } else if c == 2 {
        4
    } else if c == 3 {
        2
    } else {
        1
    }
}

/// Whether the glyph of `ch` has its pixel at row `r`, column `c` set.
pub open spec fn glyph_bit(ch: char, r: int, c: int) -> bool {
    (glyph_rows(ch)[r] as int / column_weight(c)) % 2 == 1
}

/// Column `c` of a glyph row, counted from the left, is bit `4 - c` of the
/// row: the leftmost column is the highest of the five low bits.
pub proof fn lemma_glyph_column_bit(ch: char, r: int, c: int)
    requires
        0 <= r < 7,
        0 <= c < 5,
    ensures
        glyph_bit(ch, r, c) == (((glyph_rows(ch)[r] >> ((4 - c) as u8)) & 1u8) == 1u8),
{
    let v: u8 = glyph_rows(ch)[r];
    if c == 0 {
        assert(((v / 16u8) % 2u8 == 1u8) == (((v >> 4u8) & 1u8) == 1u8)) by (bit_vector);
    } else if c == 1 {
        assert(((v / 8u8) % 2u8 == 1u8) == (((v >> 3u8) & 1u8) == 1u8)) by (bit_vector);
    } else if c == 2 {
        assert(((v / 4u8) % 2u8 == 1u8) == (((v >> 2u8) & 1u8) == 1u8)) by (bit_vector);
    } else if c == 3 {
        assert(((v / 2u8) % 2u8 == 1u8) == (((v >> 1u8) & 1u8) == 1u8)) by (bit_vector);
    } else {
        assert(((v / 1u8) % 2u8 == 1u8) == (((v >> 0u8) & 1u8) == 1u8)) by (bit_vector);
    }
}

/// Width in pixels of `n` characters of the bitmap font at `scale`: six
/// columns per character less the trailing gap, counted in `usize` with
/// saturation, then taken modulo 2^32.
pub open spec fn bitmap_text_width(n: int, scale: int) -> int {
    let m = if n * 6 > usize::MAX {
        usize::MAX as int
    } else {
        n * 6
    };
    let m1 = if m >= 1 {
        m - 1
    } else {
        0
    };
    (m1 % 0x1_0000_0000) * scale
}

/// Width of `text` in the bitmap font at `scale`.
pub fn text_width(text: &str, scale: u32) -> (r: u32)
    requires
        bitmap_text_width(text@.len() as int, scale as int) <= u32::MAX,
    ensures
        r == bitmap_text_width(text@.len() as int, scale as int),
{
    let n = crate::text::chars_of(text).len();
    let m: usize = if n > usize::MAX / 6 {
        usize::MAX
    } else {
        n * 6
    };
    let m1: usize = if m >= 1 {
        m - 1
    } else {
        0
    };
    ((m1 as u64 % 0x1_0000_0000) as u32) * scale
}

/// Colour of pixel `(c, r)` of an RGBA image `width` pixels wide.
pub open spec fn image_color(p: Seq<u8>, width: int, r: int, c: int) -> u32 {
    let o = (r * width + c) * 4;
    (p[o] * 0x1_0000 + p[o + 1] * 0x100 + p[o + 2]) as u32
}

/// Alpha of pixel `(c, r)` of an RGBA image `width` pixels wide.
pub open spec fn image_alpha(p: Seq<u8>, width: int, r: int, c: int) -> u8 {
    p[(r * width + c) * 4 + 3]
}

/// Cell `j` of a text covers glyph row `(j % 35) / 5`, column `j % 5` of
/// character `j / 35`; its top-left pixel before the origin is applied.
pub open spec fn cell_left(x: int, s: int, j: int) -> int {
    x + (j / 35) * 6 * s + (j % 5) * s
}

pub open spec fn cell_top(y: int, s: int, j: int) -> int {
    y + ((j % 35) / 5) * s
}

/// The pixel offsets of the cells of a text line stay within its span.
proof fn lemma_cell_bounds(n: int, s: int, j: int)
    requires
        0 <= j < 35 * n,
        s >= 0,
    ensures
        0 <= (j / 35) * 6 * s + (j % 5) * s,
        (j / 35) * 6 * s + (j % 5) * s + s <= 6 * n * s,
        (j / 35) * 6 * s <= 6 * n * s,
        (j / 35) * 6 <= 6 * n,
        0 <= ((j % 35) / 5) * s,
        ((j % 35) / 5) * s + s <= 7 * s,
        ((j % 35) / 5) * s <= 6 * n * s,
{
    let i = j / 35;
    let r = (j % 35) / 5;
    let c = j % 5;
    assert(0 <= i < n && 0 <= r < 7 && 0 <= c < 5);
    assert(0 <= i * 6 * s + c * s && i * 6 * s + c * s + s <= 6 * n * s && i * 6 * s <= 6 * n * s)
        by (nonlinear_arith)
        requires
            0 <= i < n,
            0 <= c < 5,
            s >= 0,
    ;
    assert(0 <= r * s && r * s + s <= 7 * s) by (nonlinear_arith)
        requires
            0 <= r < 7,
            s >= 0,
    ;
    assert(r * s <= 6 * n * s) by (nonlinear_arith)
        requires
            0 <= r < 7,
            1 <= n,
            s >= 0,
    ;
}

// ── BMP encoding ─────────────────────────────────────────

/// The little-endian bytes of a 32-bit value.
pub open spec fn le32(v: int) -> Seq<u8> {
    seq![(v % 0x100) as u8, ((v / 0x100) % 0x100) as u8, ((v / 0x1_0000) % 0x100) as u8, ((v
        / 0x100_0000) % 0x100) as u8]
}

/// The little-endian bytes of a 16-bit value.
pub open spec fn le16(v: int) -> Seq<u8> {
    seq![(v % 0x100) as u8, ((v / 0x100) % 0x100) as u8]
}

/// Bytes of one BMP row of `width` 24-bit pixels, padded to four.
pub open spec fn bmp_row_size(width: int) -> int {
    (width * 3 + 3) / 4 * 4
}

/// The 54-byte header of a 24-bit BMP of `width` × `height` pixels.
pub open spec fn bmp_header(width: int, height: int) -> Seq<u8> {
    let image = bmp_row_size(width) * height;
    seq![0x42u8, 0x4du8] + le32(54 + image) + le32(0) + le32(54) + le32(40) + le32(width) + le32(
        height,
    ) + le16(1) + le16(24) + le32(0) + le32(image) + le32(2835) + le32(2835) + le32(0) + le32(0)
}

/// The pixel rows of the BMP of a frame: row `i` of the file is frame row
/// `height - 1 - i`; its bytes are the blue, green and red of each pixel,
/// then zeros.
pub open spec fn bmp_pixels(frame: Seq<u8>, width: int, height: int, stride: int) -> Seq<u8> {
    let row = bmp_row_size(width);
    Seq::new(
        (row * height) as nat,
        |i: int|
            {
                let y = height - 1 - i / row;
                let o = i % row;
                if o < width * 3 {
                    frame[y * stride + (o / 3) * 4 + o % 3]
                } else {
                    0u8
                }
            },
    )
}

fn push_le32(out: &mut Vec<u8>, v: u32)
    ensures
        final(out)@ == old(out)@ + le32(v as int),
{
    out.push((v % 0x100) as u8);
    out.push(((v / 0x100) % 0x100) as u8);
    out.push(((v / 0x1_0000) % 0x100) as u8);
    out.push(((v / 0x100_0000) % 0x100) as u8);
    assert(out@ =~= old(out)@ + le32(v as int));
}

fn push_le16(out: &mut Vec<u8>, v: u16)
    ensures
        final(out)@ == old(out)@ + le16(v as int),
{
    out.push((v % 0x100) as u8);
    out.push(((v / 0x100) % 0x100) as u8);
    assert(out@ =~= old(out)@ + le16(v as int));
}

// ── The canvas ─────────────────────────────────────────────

pub struct Canvas {
    buffer: Vec<u8>,
    width: u32,
    height: u32,
    stride: u32,
    origin_x: i32,
}

impl Canvas {
    /// The bytes of the frame.
    pub closed spec fn frame(&self) -> Seq<u8> {
        self.buffer@
    }

    pub closed spec fn cols(&self) -> int {
        self.width as int
    }

    pub closed spec fn rows(&self) -> int {
        self.height as int
    }

    pub closed spec fn pitch(&self) -> int {
        self.stride as int
    }

    pub closed spec fn shift(&self) -> int {
        self.origin_x as int
    }

    /// Rows hold their pixels, the buffer holds its rows, and pixel
    /// coordinates fit in `i32`.
    pub closed spec fn wf(&self) -> bool {
        &&& 4 * self.width <= self.stride
        &&& self.stride > 0
        &&& self.buffer@.len() == self.stride * self.height
        &&& self.stride * self.height <= usize::MAX
        &&& self.width <= i32::MAX
        &&& self.height <= i32::MAX
    }

    /// Size, stride and origin are those of `other`.
    pub open spec fn same_shape(&self, other: &Canvas) -> bool {
        &&& self.cols() == other.cols()
        &&& self.rows() == other.rows()
        &&& self.pitch() == other.pitch()
        &&& self.shift() == other.shift()
        &&& self.frame().len() == other.frame().len()
    }

    /// A black canvas of `width` × `height` pixels with rows of `stride`
    /// bytes, origin at zero.
    pub fn new(width: u32, height: u32, stride: u32) -> (r: Canvas)
        requires
            4 * width <= stride,
            stride > 0,
            width <= i32::MAX,
            height <= i32::MAX,
            stride * height <= usize::MAX,
        ensures
            r.wf(),
            r.cols() == width,
            r.rows() == height,
            r.pitch() == stride,
            r.shift() == 0,
            forall|k: int| 0 <= k < r.frame().len() ==> r.frame()[k] == 0,
    {
        let n: usize = stride as usize * height as usize;
        let buffer: Vec<u8> = vec![0u8; n];
        Canvas { buffer, width, height, stride, origin_x: 0 }
    }

    pub fn width(&self) -> (r: u32)
        ensures
            r == self.cols(),
    {
        self.width
    }

    pub fn height(&self) -> (r: u32)
        ensures
            r == self.rows(),
    {
        self.height
    }

    pub fn stride(&self) -> (r: u32)
        ensures
            r == self.pitch(),
    {
        self.stride
    }

    pub fn origin_x(&self) -> (r: i32)
        ensures
            r == self.shift(),
    {
        self.origin_x
    }

    /// The bytes of the frame, to be copied to the scanout buffer.
    pub fn bytes(&self) -> (r: &[u8])
        ensures
            r@ == self.frame(),
    {
        self.buffer.as_slice()
    }

    /// Shifts all later drawing `x` pixels to the right.
    pub fn set_origin_x(&mut self, x: i32)
        requires
            old(self).wf(),
        ensures
            final(self).wf(),
            final(self).shift() == x,
            final(self).cols() == old(self).cols(),
            final(self).rows() == old(self).rows(),
            final(self).pitch() == old(self).pitch(),
            final(self).frame() == old(self).frame(),
    {
        self.origin_x = x;
    }

    /// Writes the four bytes of pixel `(x, y)`.
    fn store(&mut self, x: u32, y: u32, b: [u8; 4])
        requires
            old(self).wf(),
            x < old(self).cols(),
            y < old(self).rows(),
        ensures
            final(self).wf(),
            final(self).same_shape(old(self)),
            forall|k: int|
                0 <= k < old(self).frame().len() ==> #[trigger] final(self).frame()[k] == if byte_row(
                    old(self).pitch(),
                    k,
                ) == y && byte_col(old(self).pitch(), k) == x {
                    b@[byte_chan(old(self).pitch(), k)]
                } else {
                    old(self).frame()[k]
                },
    {
        let ghost stride = self.stride as int;
        proof {
            lemma_row_fits(stride, y as int, self.height as int);
        }
        let o: usize = y as usize * self.stride as usize + x as usize * 4;
        let ghost before = self.buffer@;
        self.buffer[o] = b[0];
        self.buffer[o + 1] = b[1];
        self.buffer[o + 2] = b[2];
        self.buffer[o + 3] = b[3];
        proof {
            assert forall|k: int| 0 <= k < before.len() implies #[trigger] self.buffer@[k] == if byte_row(
                stride,
                k,
            ) == y && byte_col(stride, k) == x {
                b@[byte_chan(stride, k)]
            } else {
                before[k]
            } by {
                lemma_byte_at(stride, k, x as int, y as int, 0);
                lemma_byte_at(stride, k, x as int, y as int, 1);
                lemma_byte_at(stride, k, x as int, y as int, 2);
                lemma_byte_at(stride, k, x as int, y as int, 3);
                assert(0 <= byte_chan(stride, k) < 4);
            }
        }
    }

    /// Writes `color` opaquely at `(x, y)` in buffer coordinates (the
    /// origin is not applied); outside the frame nothing happens.
    pub fn pixel_absolute(&mut self, x: i32, y: i32, color: u32)
        requires
            old(self).wf(),
        ensures
            final(self).wf(),
            final(self).same_shape(old(self)),
            forall|k: int|
                0 <= k < old(self).frame().len() ==> #[trigger] final(self).frame()[k] == if byte_row(
                    old(self).pitch(),
                    k,
                ) == y && byte_col(old(self).pitch(), k) == x && x < old(self).cols() && y < old(
                    self,
                ).rows() {
                    opaque_byte(color, byte_chan(old(self).pitch(), k))
                } else {
                    old(self).frame()[k]
                },
    {
        let ghost stride = self.stride as int;
        if x < 0 || y < 0 || x >= self.width as i32 || y >= self.height as i32 {
            proof {
                assert forall|k: int| 0 <= k < self.buffer@.len() implies byte_row(stride, k) >= 0
                    && byte_col(stride, k) >= 0 by {}
            }
            return ;
        }
        let b: [u8; 4] = [(color % 0x100) as u8, ((color / 0x100) % 0x100) as u8, ((color / 0x1_0000)
            % 0x100) as u8, 0];
        self.store(x as u32, y as u32, b);
        proof {
            assert forall|k: int| 0 <= k < 4 implies #[trigger] b@[k] == opaque_byte(color, k) by {}
            assert forall|k: int| 0 <= k < self.buffer@.len() implies 0 <= #[trigger] byte_chan(
                stride,
                k,
            ) < 4 by {}
        }
    }

    /// Blends `color` with coverage `alpha` onto pixel `(x, y)`, `x` taken
    /// relative to the origin; outside the frame nothing happens.
    pub fn blend_pixel(&mut self, x: i32, y: i32, color: u32, alpha: u8)
        requires
            old(self).wf(),
            i32::MIN <= x + old(self).shift() <= i32::MAX,
        ensures
            final(self).wf(),
            final(self).same_shape(old(self)),
            forall|k: int|
                0 <= k < old(self).frame().len() ==> #[trigger] final(self).frame()[k] == if byte_row(
                    old(self).pitch(),
                    k,
                ) == y && byte_col(old(self).pitch(), k) == x + old(self).shift() && x + old(
                    self,
                ).shift() < old(self).cols() && y < old(self).rows() {
                    blended_byte(
                        old(self).frame()[k],
                        color,
                        alpha,
                        byte_chan(old(self).pitch(), k),
                    )
                } else {
                    old(self).frame()[k]
                },
    {
        let ghost stride = self.stride as int;
        let ghost before = self.buffer@;
        let x = x + self.origin_x;
        proof {
            assert forall|k: int| 0 <= k < before.len() implies byte_row(stride, k) >= 0 && byte_col(
                stride,
                k,
            ) >= 0 && 0 <= #[trigger] byte_chan(stride, k) < 4 by {}
        }
        if alpha == 0 || x < 0 || y < 0 || x >= self.width as i32 || y >= self.height as i32 {
            return ;
        }
        if alpha == 255 {
            self.pixel_absolute(x, y, color);
            return ;
        }
        proof {
            lemma_row_fits(stride, y as int, self.height as int);
        }
        let o: usize = y as usize * self.stride as usize + x as usize * 4;
        let a = alpha as u32;
        let inverse = 255 - a;
        proof {
            lemma_blend_bounds((color % 0x100) as int, before[o as int] as int, a as int);
            lemma_blend_bounds(((color / 0x100) % 0x100) as int, before[o + 1] as int, a as int);
            lemma_blend_bounds(((color / 0x1_0000) % 0x100) as int, before[o + 2] as int, a as int);
        }
        let b0 = ((color % 0x100 * a + self.buffer[o] as u32 * inverse + 127) / 255) as u8;
        let b1 = (((color / 0x100) % 0x100 * a + self.buffer[o + 1] as u32 * inverse + 127)
            / 255) as u8;
        let b2 = (((color / 0x1_0000) % 0x100 * a + self.buffer[o + 2] as u32 * inverse + 127)
            / 255) as u8;
        let b3 = self.buffer[o + 3];
        let b: [u8; 4] = [b0, b1, b2, b3];
        self.store(x as u32, y as u32, b);
        proof {
            assert forall|k: int|
                0 <= k < before.len() && byte_row(stride, k) == y && byte_col(stride, k)
                    == x implies #[trigger] b@[byte_chan(stride, k)] == blended_byte(
                before[k],
                color,
                alpha,
                byte_chan(stride, k),
            ) by {
                lemma_byte_at(stride, k, x as int, y as int, byte_chan(stride, k));
            }
        }
    }

    /// Fills the rectangle of `width` × `height` pixels at `(x, y)`, `x`
    /// taken relative to the origin, with `color` (all four bytes), clipped
    /// to the frame.
    pub fn rect(&mut self, x: i32, y: i32, width: u32, height: u32, color: u32)
        requires
            old(self).wf(),
            i32::MIN <= x + old(self).shift(),
            x + old(self).shift() + width <= i32::MAX,
            y + height <= i32::MAX,
            width <= i32::MAX,
            height <= i32::MAX,
        ensures
            final(self).wf(),
            final(self).same_shape(old(self)),
            forall|k: int|
                0 <= k < old(self).frame().len() ==> #[trigger] final(self).frame()[k] == if in_box(
                    old(self).pitch(),
                    k,
                    max(x + old(self).shift(), 0),
                    max(y as int, 0),
                    min(x + old(self).shift() + width, old(self).cols()),
                    min(y + height, old(self).rows()),
                ) {
                    color_byte(color, byte_chan(old(self).pitch(), k))
                } else {
                    old(self).frame()[k]
                },
    {
        let ghost stride = self.stride as int;
        let ghost before = self.buffer@;
        let ghost x0 = max(x + self.origin_x, 0);
        let ghost y0 = max(y as int, 0);
        let ghost x1 = min(x + self.origin_x + width, self.width as int);
        let ghost y1 = min(y + height, self.height as int);
        if width == 0 || height == 0 {
            return ;
        }
        let x = x + self.origin_x;
        let sx: i32 = if x < 0 {
            0
        } else {
            x
        };
        let sy: i32 = if y < 0 {
            0
        } else {
            y
        };
        let ex: i32 = if x + (width as i32) < self.width as i32 {
            x + width as i32
        } else {
            self.width as i32
        };
        let ey: i32 = if y + (height as i32) < self.height as i32 {
            y + height as i32
        } else {
            self.height as i32
        };
        let b: [u8; 4] = [
            (color % 0x100) as u8,
            ((color / 0x100) % 0x100) as u8,
            ((color / 0x1_0000) % 0x100) as u8,
            (color / 0x100_0000) as u8,
        ];
        proof {
            assert forall|c: int| 0 <= c < 4 implies #[trigger] b@[c] == color_byte(color, c) by {}
        }
        let mut py: i32 = sy;
        while py < ey
            invariant
                self.wf(),
                self.cols() == old(self).cols(),
                self.rows() == old(self).rows(),
                self.pitch() == stride,
                self.shift() == old(self).shift(),
                self.frame().len() == before.len(),
                stride == old(self).pitch(),
                before == old(self).frame(),
                sx == x0,
                sy == y0,
                ex == x1,
                ey == y1,
                0 <= sx,
                0 <= sy <= py,
                py <= ey || py == sy,
                ex <= self.cols(),
                ey <= self.rows(),
                forall|c: int| 0 <= c < 4 ==> #[trigger] b@[c] == color_byte(color, c),
                forall|k: int|
                    0 <= k < before.len() ==> #[trigger] self.frame()[k] == if in_box(
                        stride,
                        k,
                        x0,
                        y0,
                        x1,
                        py as int,
                    ) {
                        color_byte(color, byte_chan(stride, k))
                    } else {
                        before[k]
                    },
            decreases ey - py,
        {
            let mut px: i32 = sx;
            while px < ex
                invariant
                    self.wf(),
                    self.cols() == old(self).cols(),
                    self.rows() == old(self).rows(),
                    self.pitch() == stride,
                    self.shift() == old(self).shift(),
                    self.frame().len() == before.len(),
                    sx == x0,
                    sy == y0,
                    ex == x1,
                    ey == y1,
                    0 <= sx <= px,
                    px <= ex || px == sx,
                    0 <= sy <= py < ey,
                    ex <= self.cols(),
                    ey <= self.rows(),
                    forall|c: int| 0 <= c < 4 ==> #[trigger] b@[c] == color_byte(color, c),
                    forall|k: int|
                        0 <= k < before.len() ==> #[trigger] self.frame()[k] == if in_box(
                            stride,
                            k,
                            x0,
                            y0,
                            x1,
                            py as int,
                        ) || (byte_row(stride, k) == py && x0 <= byte_col(stride, k) < px) {
                            color_byte(color, byte_chan(stride, k))
                        } else {
                            before[k]
                        },
                decreases ex - px,
            {
                let ghost prev = self.buffer@;
                self.store(px as u32, py as u32, b);
                proof {
                    assert forall|k: int| 0 <= k < before.len() implies 0 <= #[trigger] byte_chan(
                        stride,
                        k,
                    ) < 4 by {}
                }
                px = px + 1;
            }
            py = py + 1;
        }
    }

    /// Blends `color` with coverage `alpha` over the rectangle of `width` ×
    /// `height` pixels at `(x, y)`; the rectangle is clipped to the frame
    /// before the origin shifts each pixel, and shifted pixels outside the
    /// frame are dropped.
    pub fn blend_rect(&mut self, x: i32, y: i32, width: u32, height: u32, color: u32, alpha: u8)
        requires
            old(self).wf(),
            x + width <= i32::MAX,
            y + height <= i32::MAX,
            width <= i32::MAX,
            height <= i32::MAX,
            min(x + width, old(self).cols()) <= max(x as int, 0) || min(y + height, old(self).rows())
                <= max(y as int, 0) || (i32::MIN <= old(self).shift() && min(
                x + width,
                old(self).cols(),
            ) - 1 + old(self).shift() <= i32::MAX),
        ensures
            final(self).wf(),
            final(self).same_shape(old(self)),
            forall|k: int|
                0 <= k < old(self).frame().len() ==> #[trigger] final(self).frame()[k] == if in_box(
                    old(self).pitch(),
                    k,
                    max(x as int, 0) + old(self).shift(),
                    max(y as int, 0),
                    min(x + width, old(self).cols()) + old(self).shift(),
                    min(y + height, old(self).rows()),
                ) && byte_col(old(self).pitch(), k) < old(self).cols() {
                    blended_byte(
                        old(self).frame()[k],
                        color,
                        alpha,
                        byte_chan(old(self).pitch(), k),
                    )
                } else {
                    old(self).frame()[k]
                },
    {
        let ghost stride = self.stride as int;
        let ghost before = self.buffer@;
        let ghost shift = self.origin_x as int;
        let ghost x0 = max(x as int, 0);
        let ghost y0 = max(y as int, 0);
        let ghost x1 = min(x + width, self.width as int);
        let ghost y1 = min(y + height, self.height as int);
        proof {
            assert forall|k: int| 0 <= k < before.len() implies byte_row(stride, k) >= 0 && byte_col(
                stride,
                k,
            ) >= 0 && 0 <= #[trigger] byte_chan(stride, k) < 4 by {}
        }
        let sx: i32 = if x < 0 {
            0
        } else {
            x
        };
        let sy: i32 = if y < 0 {
            0
        } else {
            y
        };
        let ex: i32 = if x + (width as i32) < self.width as i32 {
            x + width as i32
        } else {
            self.width as i32
        };
        let ey: i32 = if y + (height as i32) < self.height as i32 {
            y + height as i32
        } else {
            self.height as i32
        };
        let mut py: i32 = sy;
        while py < ey
            invariant
                self.wf(),
                self.cols() == old(self).cols(),
                self.rows() == old(self).rows(),
                self.pitch() == stride,
                self.shift() == shift,
                self.frame().len() == before.len(),
                stride == old(self).pitch(),
                shift == old(self).shift(),
                before == old(self).frame(),
                sx == x0,
                sy == y0,
                ex == x1,
                ey == y1,
                0 <= sx,
                0 <= sy <= py,
                py <= ey || py == sy,
                ex <= self.cols(),
                ey <= self.rows(),
                ex <= sx || ey <= sy || (i32::MIN <= shift && ex - 1 + shift <= i32::MAX),
                forall|k: int|
                    0 <= k < before.len() ==> byte_row(stride, k) >= 0 && byte_col(stride, k) >= 0
                        && 0 <= #[trigger] byte_chan(stride, k) < 4,
                forall|k: int|
                    0 <= k < before.len() ==> #[trigger] self.frame()[k] == if in_box(
                        stride,
                        k,
                        x0 + shift,
                        y0,
                        x1 + shift,
                        py as int,
                    ) && byte_col(stride, k) < self.cols() {
                        blended_byte(before[k], color, alpha, byte_chan(stride, k))
                    } else {
                        before[k]
                    },
            decreases ey - py,
        {
            let mut px: i32 = sx;
            while px < ex
                invariant
                    self.wf(),
                    self.cols() == old(self).cols(),
                    self.rows() == old(self).rows(),
                    self.pitch() == stride,
                    self.shift() == shift,
                    self.frame().len() == before.len(),
                    sx == x0,
                    sy == y0,
                    ex == x1,
                    ey == y1,
                    0 <= sx <= px,
                    px <= ex || px == sx,
                    0 <= sy <= py < ey,
                    ex <= self.cols(),
                    ey <= self.rows(),
                    ex <= sx || (i32::MIN <= shift && ex - 1 + shift <= i32::MAX),
                    forall|k: int|
                        0 <= k < before.len() ==> byte_row(stride, k) >= 0 && byte_col(stride, k)
                            >= 0 && 0 <= #[trigger] byte_chan(stride, k) < 4,
                    forall|k: int|
                        0 <= k < before.len() ==> #[trigger] self.frame()[k] == if (in_box(
                            stride,
                            k,
                            x0 + shift,
                            y0,
                            x1 + shift,
                            py as int,
                        ) || (byte_row(stride, k) == py && x0 + shift <= byte_col(stride, k) < px
                            + shift)) && byte_col(stride, k) < self.cols() {
                            blended_byte(before[k], color, alpha, byte_chan(stride, k))
                        } else {
                            before[k]
                        },
                decreases ex - px,
            {
                self.blend_pixel(px, py, color, alpha);
                px = px + 1;
            }
            py = py + 1;
        }
    }

    /// Whether byte `k` lies in pixel `(c, r)` of an image placed at
    /// `(x, y)` relative to the origin, within the frame.
    pub open spec fn image_byte(&self, k: int, x: int, y: int, width: int, height: int) -> bool {
        let r = byte_row(self.pitch(), k) - y;
        let c = byte_col(self.pitch(), k) - self.shift() - x;
        &&& 0 <= r < height
        &&& 0 <= c < width
        &&& byte_col(self.pitch(), k) < self.cols()
        &&& byte_row(self.pitch(), k) < self.rows()
    }

    /// Draws an RGBA image (rows of `width` pixels, four bytes each: red,
    /// green, blue, alpha) at `(x, y)` relative to the origin, each pixel
    /// blended with its own alpha; fully transparent pixels are skipped.
    pub fn rgba_image(&mut self, x: i32, y: i32, width: u32, height: u32, pixels: &[u8])
        requires
            old(self).wf(),
            pixels@.len() == width * height * 4,
            width <= i32::MAX,
            height <= i32::MAX,
            width > 0 && height > 0 ==> i32::MIN <= x + old(self).shift() && x + width - 1 + old(
                self,
            ).shift() <= i32::MAX && x + width - 1 <= i32::MAX && y + height - 1 <= i32::MAX,
        ensures
            final(self).wf(),
            final(self).same_shape(old(self)),
            forall|k: int|
                0 <= k < old(self).frame().len() ==> #[trigger] final(self).frame()[k] == if old(
                    self,
                ).image_byte(k, x as int, y as int, width as int, height as int) {
                    blended_byte(
                        old(self).frame()[k],
                        image_color(
                            pixels@,
                            width as int,
                            byte_row(old(self).pitch(), k) - y,
                            byte_col(old(self).pitch(), k) - old(self).shift() - x,
                        ),
                        image_alpha(
                            pixels@,
                            width as int,
                            byte_row(old(self).pitch(), k) - y,
                            byte_col(old(self).pitch(), k) - old(self).shift() - x,
                        ),
                        byte_chan(old(self).pitch(), k),
                    )
                } else {
                    old(self).frame()[k]
                },
    {
        let ghost stride = self.stride as int;
        let ghost before = self.buffer@;
        let ghost shift = self.origin_x as int;
        let ghost start = *self;
        let plen = pixels.len();
        let w = width as usize;
        let h = height as usize;
        let mut row: usize = 0;
        while row < h
            invariant
                self.wf(),
                self.cols() == start.cols(),
                self.rows() == start.rows(),
                self.pitch() == stride,
                self.shift() == shift,
                self.frame().len() == before.len(),
                start == *old(self),
                stride == start.pitch(),
                shift == start.shift(),
                before == start.frame(),
                w == width,
                h == height,
                row <= h,
                plen == pixels@.len(),
                pixels@.len() == width * height * 4,
                width > 0 && height > 0 ==> i32::MIN <= x + shift && x + width - 1 + shift
                    <= i32::MAX && x + width - 1 <= i32::MAX && y + height - 1 <= i32::MAX,
                width <= i32::MAX,
                height <= i32::MAX,
                forall|k: int|
                    0 <= k < before.len() ==> #[trigger] self.frame()[k] == if start.image_byte(
                        k,
                        x as int,
                        y as int,
                        width as int,
                        row as int,
                    ) {
                        blended_byte(
                            before[k],
                            image_color(
                                pixels@,
                                width as int,
                                byte_row(stride, k) - y,
                                byte_col(stride, k) - shift - x,
                            ),
                            image_alpha(
                                pixels@,
                                width as int,
                                byte_row(stride, k) - y,
                                byte_col(stride, k) - shift - x,
                            ),
                            byte_chan(stride, k),
                        )
                    } else {
                        before[k]
                    },
            decreases h - row,
        {
            let mut col: usize = 0;
            while col < w
                invariant
                    self.wf(),
                    self.cols() == start.cols(),
                    self.rows() == start.rows(),
                    self.pitch() == stride,
                    self.shift() == shift,
                    self.frame().len() == before.len(),
                    stride == start.pitch(),
                    shift == start.shift(),
                    before == start.frame(),
                    w == width,
                    h == height,
                    row < h,
                    col <= w,
                    plen == pixels@.len(),
                    pixels@.len() == width * height * 4,
                    width > 0 && height > 0 ==> i32::MIN <= x + shift && x + width - 1 + shift
                        <= i32::MAX && x + width - 1 <= i32::MAX && y + height - 1 <= i32::MAX,
                    width <= i32::MAX,
                    height <= i32::MAX,
                    forall|k: int|
                        0 <= k < before.len() ==> #[trigger] self.frame()[k] == if start.image_byte(
                            k,
                            x as int,
                            y as int,
                            width as int,
                            row as int,
                        ) || (byte_row(stride, k) - y == row && 0 <= byte_col(stride, k) - shift - x
                            < col && byte_col(stride, k) < start.cols() && byte_row(stride, k)
                            < start.rows()) {
                            blended_byte(
                                before[k],
                                image_color(
                                    pixels@,
                                    width as int,
                                    byte_row(stride, k) - y,
                                    byte_col(stride, k) - shift - x,
                                ),
                                image_alpha(
                                    pixels@,
                                    width as int,
                                    byte_row(stride, k) - y,
                                    byte_col(stride, k) - shift - x,
                                ),
                                byte_chan(stride, k),
                            )
                        } else {
                            before[k]
                        },
                decreases w - col,
            {
                proof {
                    assert(row * w + col < h * w && (row * w + col) * 4 + 4 <= h * w * 4) by (
                    nonlinear_arith)
                        requires
                            row < h,
                            col < w,
                    ;
                    assert(width * height * 4 == h * w * 4) by (nonlinear_arith)
                        requires
                            w == width,
                            h == height,
                    ;
                }
                let offset: usize = (row * w + col) * 4;
                let alpha = pixels[offset + 3];
                if alpha != 0 {
                    let color: u32 = pixels[offset] as u32 * 0x1_0000 + pixels[offset + 1] as u32
                        * 0x100 + pixels[offset + 2] as u32;
                    assert(color == image_color(pixels@, width as int, row as int, col as int));
                    self.blend_pixel(x + col as i32, y + row as i32, color, alpha);
                }
                col = col + 1;
            }
            row = row + 1;
        }
    }

    /// Whether byte `k` lies in cell `j` of a text drawn at `(x, y)` with
    /// glyphs scaled by `s`, the cell's glyph pixel being set.
    pub open spec fn text_cell(
        &self,
        k: int,
        x: int,
        y: int,
        s: int,
        chars: Seq<char>,
        j: int,
    ) -> bool {
        &&& glyph_bit(chars[j / 35], (j % 35) / 5, j % 5)
        &&& in_box(
            self.pitch(),
            k,
            max(cell_left(x, s, j) + self.shift(), 0),
            max(cell_top(y, s, j), 0),
            min(cell_left(x, s, j) + self.shift() + s, self.cols()),
            min(cell_top(y, s, j) + s, self.rows()),
        )
    }

    /// Draws `text` in the built-in bitmap font at `(x, y)` relative to the
    /// origin: character `i` occupies columns from `x + 6 * i * scale`, each
    /// set glyph pixel a `scale` × `scale` square of `color`.
    pub fn bitmap_text(&mut self, x: i32, y: i32, text: &str, scale: u32, color: u32)
        requires
            old(self).wf(),
            scale <= i32::MAX,
            text@.len() > 0 ==> 6 * text@.len() <= i32::MAX && 6 * text@.len() * scale
                <= i32::MAX && i32::MIN <= x + old(
                self,
            ).shift() && x + 6 * text@.len() * scale + old(self).shift() <= i32::MAX && x + 6
                * text@.len() * scale <= i32::MAX && y + 7 * scale <= i32::MAX,
        ensures
            final(self).wf(),
            final(self).same_shape(old(self)),
            forall|k: int|
                0 <= k < old(self).frame().len() ==> #[trigger] final(self).frame()[k] == if exists|
                    j: int,
                |
                    0 <= j < 35 * text@.len() && #[trigger] old(self).text_cell(
                        k,
                        x as int,
                        y as int,
                        scale as int,
                        text@,
                        j,
                    ) {
                    color_byte(color, byte_chan(old(self).pitch(), k))
                } else {
                    old(self).frame()[k]
                },
    {
        let ghost before = self.buffer@;
        let ghost start = *self;
        let chars = crate::text::chars_of(text);
        let n = chars.len();
        let ghost s = scale as int;
        let mut i: usize = 0;
        while i < n
            invariant
                self.wf(),
                self.cols() == start.cols(),
                self.rows() == start.rows(),
                self.pitch() == start.pitch(),
                self.shift() == start.shift(),
                self.frame().len() == before.len(),
                start == *old(self),
                before == start.frame(),
                chars@ == text@,
                n == text@.len(),
                i <= n,
                s == scale,
                scale <= i32::MAX,
                n > 0 ==> 6 * n <= i32::MAX && 6 * n * scale <= i32::MAX && i32::MIN <= x
                    + start.shift() && x + 6 * n * scale + start.shift() <= i32::MAX && x + 6 * n
                    * scale <= i32::MAX && y + 7 * scale <= i32::MAX,
                forall|k: int|
                    0 <= k < before.len() ==> #[trigger] self.frame()[k] == if exists|j2: int|
                        0 <= j2 < 35 * i && #[trigger] start.text_cell(
                            k,
                            x as int,
                            y as int,
                            s,
                            text@,
                            j2,
                        ) {
                        color_byte(color, byte_chan(start.pitch(), k))
                    } else {
                        before[k]
                    },
            decreases n - i,
        {
            let rows = glyph(chars[i]);
            let mut cell: usize = 0;
            while cell < 35
                invariant
                    self.wf(),
                    self.cols() == start.cols(),
                    self.rows() == start.rows(),
                    self.pitch() == start.pitch(),
                    self.shift() == start.shift(),
                    self.frame().len() == before.len(),
                    before == start.frame(),
                    chars@ == text@,
                    n == text@.len(),
                    i < n,
                    cell <= 35,
                    rows@ == glyph_rows(text@[i as int]),
                    s == scale,
                    scale <= i32::MAX,
                    6 * n <= i32::MAX && 6 * n * scale <= i32::MAX && i32::MIN <= x + start.shift()
                        && x + 6 * n * scale + start.shift() <= i32::MAX && x + 6 * n * scale
                        <= i32::MAX && y + 7 * scale <= i32::MAX,
                    forall|k: int|
                        0 <= k < before.len() ==> #[trigger] self.frame()[k] == if exists|j2: int|
                            0 <= j2 < 35 * i + cell && #[trigger] start.text_cell(
                                k,
                                x as int,
                                y as int,
                                s,
                                text@,
                                j2,
                            ) {
                            color_byte(color, byte_chan(start.pitch(), k))
                        } else {
                            before[k]
                        },
                decreases 35 - cell,
            {
                let ghost j = 35 * i + cell;
                let r = cell / 5;
                let c = cell % 5;
                proof {
                    assert(j / 35 == i && (j % 35) / 5 == r && j % 5 == c);
                    lemma_cell_bounds(n as int, s, j);
                }
                let weight: u8 = if c == 0 {
                    16
                } else if c == 1 {
                    8
                } else if c == 2 {
                    4
                } else if c == 3 {
                    2
                } else {
                    1
                };
                let on = (rows[r] / weight) % 2 == 1;
                assert(on == glyph_bit(text@[j / 35], (j % 35) / 5, j % 5));
                if on {
                    let left = x + (i as i32) * 6 * (scale as i32) + (c as i32) * (scale as i32);
                    let top = y + (r as i32) * (scale as i32);
                    assert(left == cell_left(x as int, s, j));
                    assert(top == cell_top(y as int, s, j));
                    self.rect(left, top, scale, scale, color);
                }
                proof {
                    assert forall|k: int| 0 <= k < before.len() implies #[trigger] self.frame()[k]
                        == if exists|j2: int|
                        0 <= j2 < j + 1 && #[trigger] start.text_cell(
                            k,
                            x as int,
                            y as int,
                            s,
                            text@,
                            j2,
                        ) {
                        color_byte(color, byte_chan(start.pitch(), k))
                    } else {
                        before[k]
                    } by {
                        if start.text_cell(k, x as int, y as int, s, text@, j) {
                        } else if exists|j2: int|
                            0 <= j2 < j + 1 && #[trigger] start.text_cell(
                                k,
                                x as int,
                                y as int,
                                s,
                                text@,
                                j2,
                            ) {
                            let j2 = choose|j2: int|
                                0 <= j2 < j + 1 && #[trigger] start.text_cell(
                                    k,
                                    x as int,
                                    y as int,
                                    s,
                                    text@,
                                    j2,
                                );
                            assert(j2 < j);
                        }
                    }
                }
                cell = cell + 1;
            }
            i = i + 1;
        }
    }

    /// The BMP image of the frame: a 54-byte header (24 bits per pixel,
    /// 2835 pixels per metre) and the rows bottom-up, three bytes per pixel
    /// (blue, green, red), each row padded with zeros to a multiple of four.
    pub fn encode_bmp(&self) -> (r: Vec<u8>)
        requires
            self.wf(),
            54 + bmp_row_size(self.cols()) * self.rows() <= u32::MAX,
        ensures
            r@ == bmp_header(self.cols(), self.rows()) + bmp_pixels(
                self.frame(),
                self.cols(),
                self.rows(),
                self.pitch(),
            ),
    {
        let ghost frame = self.buffer@;
        let ghost w = self.width as int;
        let ghost h = self.height as int;
        let ghost stride = self.stride as int;
        let row_size: usize = (self.width as usize * 3 + 3) / 4 * 4;
        proof {
            assert(row_size * h >= 0 && row_size >= 0) by (nonlinear_arith)
                requires
                    row_size >= 0,
                    h >= 0,
            ;
        }
        let image_size: u32 = (row_size * self.height as usize) as u32;
        let mut out: Vec<u8> = Vec::new();
        out.push(0x42);
        out.push(0x4d);
        push_le32(&mut out, 54 + image_size);
        push_le32(&mut out, 0);
        push_le32(&mut out, 54);
        push_le32(&mut out, 40);
        push_le32(&mut out, self.width);
        push_le32(&mut out, self.height);
        push_le16(&mut out, 1);
        push_le16(&mut out, 24);
        push_le32(&mut out, 0);
        push_le32(&mut out, image_size);
        push_le32(&mut out, 2835);
        push_le32(&mut out, 2835);
        push_le32(&mut out, 0);
        push_le32(&mut out, 0);
        assert(out@ =~= bmp_header(w, h));
        let ghost header = out@;
        let mut done: usize = 0;
        while done < self.height as usize
            invariant
                self.wf(),
                frame == self.frame(),
                w == self.cols(),
                h == self.rows(),
                stride == self.pitch(),
                row_size == bmp_row_size(w),
                54 + row_size * h <= u32::MAX,
                header == bmp_header(w, h),
                done <= h,
                out@ =~= header + bmp_pixels(frame, w, h, stride).take(done * row_size),
            decreases h - done,
        {
            let y: usize = self.height as usize - 1 - done;
            proof {
                lemma_row_fits(stride, y as int, h);
                assert(done * row_size + row_size <= row_size * h) by (nonlinear_arith)
                    requires
                        done < h,
                        row_size >= 0,
                ;
            }
            let mut o: usize = 0;
            while o < row_size
                invariant
                    self.wf(),
                    frame == self.frame(),
                    w == self.cols(),
                    h == self.rows(),
                    stride == self.pitch(),
                    row_size == bmp_row_size(w),
                    54 + row_size * h <= u32::MAX,
                    done < h,
                    y == h - 1 - done,
                    y * stride + stride <= stride * h,
                    0 <= y * stride,
                    done * row_size + row_size <= row_size * h,
                    o <= row_size,
                    out@ =~= header + bmp_pixels(frame, w, h, stride).take(done * row_size + o),
                decreases row_size - o,
            {
                let ghost i = done * row_size + o;
                proof {
                    lemma_fundamental_div_mod_converse(i, row_size as int, done as int, o as int);
                }
                let byte: u8 = if o < self.width as usize * 3 {
                    self.buffer[y * self.stride as usize + o / 3 * 4 + o % 3]
                } else {
                    0
                };
                out.push(byte);
                assert(bmp_pixels(frame, w, h, stride).take(i + 1) =~= bmp_pixels(
                    frame,
                    w,
                    h,
                    stride,
                ).take(i).push(byte));
                o = o + 1;
            }
            done = done + 1;
            assert(done * row_size == (done - 1) * row_size + row_size) by (nonlinear_arith);
        }
        assert(bmp_pixels(frame, w, h, stride).take(h * row_size) =~= bmp_pixels(
            frame,
            w,
            h,
            stride,
        )) by {
            assert(h * row_size == row_size * h) by (nonlinear_arith);
        }
        out
    }
}

} // verus!
