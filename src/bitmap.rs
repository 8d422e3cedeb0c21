use vstd::prelude::*;
use crate::coords::Dimensions;
use crate::pixmap::Pixmap;

verus! {

/// A colour with each channel quantised to a byte.
#[derive(Clone, Copy, Debug, PartialEq, Eq, Structural)]
pub struct Rgb8 {
    pub red: u8,
    pub green: u8,
    pub blue: u8,
}

/// The bytes of the file header and the bitmap information header.
pub const HEADER_LEN: usize = 54;

/// The length in bytes of one encoded row of `width` pixels: three bytes a
/// pixel, padded with zero bytes to a multiple of four.
pub open spec fn row_length(width: nat) -> nat {
    ((3 * width + 3) / 4 * 4) as nat
}

/// The byte at offset `col` of the encoded form of `p`: blue, green, red.
pub open spec fn channel_byte(p: Rgb8, col: int) -> u8 {
    if col == 0 {
        p.blue
    } else if col == 1 {
        p.green
    } else {
        p.red
    }
}

/// The byte at offset `j` of the encoded pixel rows of an image of
/// dimensions `dim` whose pixels, row by row, are `pixels`.
pub open spec fn encoded_byte(dim: Dimensions, pixels: Seq<Rgb8>, j: int) -> u8 {
    let len = row_length(dim.width as nat) as int;
    let row = j / len;
    let col = j % len;
    if col < 3 * dim.width {
        channel_byte(pixels[row * dim.width + col / 3], col % 3)
    } else {
        0
    }
}

/// The encoded pixel rows: the top row first, each row's pixels from the
/// left as blue, green, red bytes, then the row's zero padding.
pub open spec fn bgr_bytes(dim: Dimensions, pixels: Seq<Rgb8>) -> Seq<u8> {
    Seq::new(
        row_length(dim.width as nat) * (dim.height as nat),
        |j: int| encoded_byte(dim, pixels, j),
    )
}

/// `v` modulo 2^16 as two little-endian bytes.
pub open spec fn le16(v: int) -> Seq<u8> {
    seq![(v % 256) as u8, (v / 256 % 256) as u8]
}

/// `v` modulo 2^32 as four little-endian bytes.
pub open spec fn le32(v: int) -> Seq<u8> {
    let w = v % 0x1_0000_0000;
    seq![(w % 256) as u8, (w / 256 % 256) as u8, (w / 65536 % 256) as u8, (w / 16777216) as u8]
}

/// The 54 header bytes of a bitmap of dimensions `dim` with
/// `pixel_data_len` bytes of pixel rows. The height is stored negated,
/// which makes the rows run from the top down.
pub open spec fn header(dim: Dimensions, pixel_data_len: nat) -> Seq<u8> {
    seq![66u8, 77u8]
        + le32(HEADER_LEN + pixel_data_len)
        + seq![80u8, 76u8, 77u8, 71u8]
        + le32(HEADER_LEN as int)
        + le32(40)
        + le32(dim.width as int)
        + le32(0x1_0000_0000 - dim.height as int % 0x1_0000_0000)
        + le16(1)
        + le16(24)
        + le32(0)
        + le32(0)
        + le32(96)
        + le32(96)
        + le32(0)
        + le32(0)
}

/// The whole bitmap file of an image of dimensions `dim`.
pub open spec fn bitmap_file(dim: Dimensions, pixels: Seq<Rgb8>) -> Seq<u8> {
    header(dim, row_length(dim.width as nat) * (dim.height as nat)) + bgr_bytes(dim, pixels)
}

/// The length in bytes of one encoded row of `width` pixels.
pub fn encoded_row_length(width: usize) -> (r: usize)
    requires
        3 * width + 3 <= usize::MAX,
    ensures
        r == row_length(width as nat),
{
    (width * 3 + 3) / 4 * 4
}

/// The header of a bitmap of `dimensions` with `pixel_data_len` bytes of
/// pixel rows.
pub fn bitmap_header(dimensions: Dimensions, pixel_data_len: usize) -> (r: Vec<u8>)
    ensures
        r@ == header(dimensions, pixel_data_len as nat),
        r@.len() == HEADER_LEN,
{
    let m: u64 = 0x1_0000_0000;
    let mut out: Vec<u8> = Vec::with_capacity(HEADER_LEN);
    out.push(66u8);
    out.push(77u8);
    let size = (pixel_data_len as u64 % m + HEADER_LEN as u64) % m;
    proof {
        vstd::arithmetic::div_mod::lemma_add_mod_noop(pixel_data_len as int, HEADER_LEN as int, m as int);
        vstd::arithmetic::div_mod::lemma_small_mod(HEADER_LEN as nat, m as nat);
        vstd::arithmetic::div_mod::lemma_mod_twice(size as int, m as int);
    }
    assert(le32(size as int) == le32(HEADER_LEN + pixel_data_len));
    push_u32_le(&mut out, size as u32);
    out.push(80u8);
    out.push(76u8);
    out.push(77u8);
    out.push(71u8);
    push_u32_le(&mut out, HEADER_LEN as u32);
    push_u32_le(&mut out, 40);
    let width = dimensions.width as u64 % m;
    proof {
        vstd::arithmetic::div_mod::lemma_mod_twice(dimensions.width as int, m as int);
    }
    assert(le32(width as int) == le32(dimensions.width as int));
    push_u32_le(&mut out, width as u32);
    let height = dimensions.height as u64 % m;
    let neg_height = (m - height) % m;
    proof {
        vstd::arithmetic::div_mod::lemma_mod_twice((m - height) as int, m as int);
    }
    assert(le32(neg_height as int) == le32(0x1_0000_0000 - dimensions.height as int % 0x1_0000_0000));
    push_u32_le(&mut out, neg_height as u32);
    push_u16_le(&mut out, 1);
    push_u16_le(&mut out, 24);
    push_u32_le(&mut out, 0);
    push_u32_le(&mut out, 0);
    push_u32_le(&mut out, 96);
    push_u32_le(&mut out, 96);
    push_u32_le(&mut out, 0);
    push_u32_le(&mut out, 0);
    assert(out@ =~= header(dimensions, pixel_data_len as nat));
    out
}

/// Where a byte of row `y` and column `c` of the encoded rows stands, and
/// what it holds.
proof fn lemma_encoded_byte_at(dim: Dimensions, pixels: Seq<Rgb8>, y: int, c: int)
    requires
        0 <= y,
        0 <= c < row_length(dim.width as nat),
    ensures
        encoded_byte(dim, pixels, y * row_length(dim.width as nat) + c) == if c < 3 * dim.width {
            channel_byte(pixels[y * dim.width + c / 3], c % 3)
        } else {
            0u8
        },
{
    let len = row_length(dim.width as nat) as int;
    vstd::arithmetic::div_mod::lemma_fundamental_div_mod_converse(y * len + c, len, y, c);
}

/// Byte `3 * x + ch` of a row belongs to pixel `x`, channel `ch`.
proof fn lemma_pixel_columns(x: int, ch: int)
    requires
        0 <= x,
        0 <= ch < 3,
    ensures
        (3 * x + ch) / 3 == x,
        (3 * x + ch) % 3 == ch,
{
    vstd::arithmetic::div_mod::lemma_fundamental_div_mod_converse(3 * x + ch, 3, x, ch);
}

impl Pixmap<Rgb8> {
    /// The pixel rows as a bitmap stores them: the top row first, each
    /// pixel as blue, green, red bytes, each row padded with zero bytes to
    /// a multiple of four. The caller sees to it that the encoded rows fit
    /// in memory; nothing is checked at run time.
    pub fn to_bgr_unchecked(&self) -> (r: Vec<u8>)
        requires
            row_length(self.dims().width as nat) * self.dims().height <= usize::MAX,
        ensures
            r@ == bgr_bytes(self.dims(), self@),
    {
        let dim = self.dimensions();
        let n = self.count();
        let data = self.data();
        let mut out: Vec<u8> = Vec::new();
        if dim.width == 0 || dim.height == 0 {
            proof {
                assert(row_length(dim.width as nat) * dim.height == 0) by (nonlinear_arith)
                    requires
                        dim.width == 0 || dim.height == 0,
                        dim.width == 0 ==> row_length(dim.width as nat) == 0,
                {
                }
            }
            assert(out@ =~= bgr_bytes(dim, self@));
            return out;
        }
        assert(3 * dim.width + 3 <= usize::MAX) by (nonlinear_arith)
            requires
                row_length(dim.width as nat) * dim.height <= usize::MAX,
                dim.height >= 1,
                row_length(dim.width as nat) == (3 * dim.width + 3) / 4 * 4,
        {
            assert(row_length(dim.width as nat) <= row_length(dim.width as nat) * dim.height);
        }
        let row_len = encoded_row_length(dim.width);
        let ghost total = row_len * dim.height;
        let pad = row_len - 3 * dim.width;
        let mut y: usize = 0;
        while y < dim.height
            invariant
                dim == self.dims(),
                n == dim.area(),
                data@ == self@,
                self@.len() == n,
                dim.width >= 1,
                row_len == row_length(dim.width as nat),
                3 * dim.width <= row_len <= 3 * dim.width + 3,
                pad == row_len - 3 * dim.width,
                row_len * dim.height <= usize::MAX,
                y <= dim.height,
                out@.len() == y * row_len,
                forall|j: int| 0 <= j < out@.len() ==> out@[j] == encoded_byte(dim, self@, j),
            decreases dim.height - y,
        {
            assert((y + 1) * row_len <= row_len * dim.height) by (nonlinear_arith)
                requires
                    y < dim.height,
                    row_len >= 0,
            {
            }
            assert(y * dim.width + dim.width <= dim.width * dim.height) by (nonlinear_arith)
                requires
                    y < dim.height,
                    dim.width >= 0,
            {
                assert(y * dim.width + dim.width == (y + 1) * dim.width);
            }
            let start = y * dim.width;
            let mut x: usize = 0;
            while x < dim.width
                invariant
                    dim == self.dims(),
                    data@ == self@,
                    self@.len() == n,
                    n == dim.area(),
                    row_len == row_length(dim.width as nat),
                    3 * dim.width <= row_len,
                    (y + 1) * row_len <= usize::MAX,
                    y < dim.height,
                    start == y * dim.width,
                    start + dim.width <= n,
                    x <= dim.width,
                    out@.len() == y * row_len + 3 * x,
                    forall|j: int| 0 <= j < out@.len() ==> out@[j] == encoded_byte(dim, self@, j),
                decreases dim.width - x,
            {
                let p = data[start + x];
                proof {
                    assert((y + 1) * row_len == y * row_len + row_len) by (nonlinear_arith);
                    lemma_pixel_columns(x as int, 0);
                    lemma_pixel_columns(x as int, 1);
                    lemma_pixel_columns(x as int, 2);
                    lemma_encoded_byte_at(dim, self@, y as int, 3 * x + 0);
                    lemma_encoded_byte_at(dim, self@, y as int, 3 * x + 1);
                    lemma_encoded_byte_at(dim, self@, y as int, 3 * x + 2);
                }
                out.push(p.blue);
                out.push(p.green);
                out.push(p.red);
                x += 1;
            }
            let mut i: usize = 0;
            while i < pad
                invariant
                    dim == self.dims(),
                    row_len == row_length(dim.width as nat),
                    3 * dim.width <= row_len,
                    pad == row_len - 3 * dim.width,
                    (y + 1) * row_len <= usize::MAX,
                    i <= pad,
                    out@.len() == y * row_len + 3 * dim.width + i,
                    forall|j: int| 0 <= j < out@.len() ==> out@[j] == encoded_byte(dim, self@, j),
                decreases pad - i,
            {
                proof {
                    assert((y + 1) * row_len == y * row_len + row_len) by (nonlinear_arith);
                    lemma_encoded_byte_at(dim, self@, y as int, 3 * dim.width + i);
                }
                out.push(0u8);
                i += 1;
            }
            assert((y + 1) * row_len == y * row_len + row_len) by (nonlinear_arith);
            y += 1;
        }
        assert(y * row_len == row_len * dim.height) by (nonlinear_arith)
            requires
                y == dim.height,
        {
        }
        assert(out@ =~= bgr_bytes(dim, self@));
        out
    }
}

/// Encodes an image as a complete bitmap file: the header, then the pixel
/// rows from the top down.
pub fn encode_bitmap(pixels: &Pixmap<Rgb8>) -> (r: Vec<u8>)
    requires
        HEADER_LEN + row_length(pixels.dims().width as nat) * pixels.dims().height <= usize::MAX,
    ensures
        r@ == bitmap_file(pixels.dims(), pixels@),
{
    let mut bgr = pixels.to_bgr_unchecked();
    let mut out = bitmap_header(pixels.dimensions(), bgr.len());
    out.append(&mut bgr);
    out
}

/// An encoded row is a whole number of four-byte words, and its padding
/// is at most three bytes.
pub proof fn lemma_row_padding(width: nat)
    ensures
        row_length(width) % 4 == 0,
        3 * width <= row_length(width) <= 3 * width + 3,
{
    let n = 3 * width + 3;
    vstd::arithmetic::div_mod::lemma_fundamental_div_mod(n as int, 4);
    vstd::arithmetic::div_mod::lemma_mod_multiples_basic(n as int / 4, 4);
}

/// The header of a bitmap, and the file's length, depend on the image's
/// dimensions alone: images of the same size differ in their pixel bytes
/// only.
pub proof fn lemma_header_fixed_by_dimensions(dim: Dimensions, a: Seq<Rgb8>, b: Seq<Rgb8>)
    ensures
        bitmap_file(dim, a).len() == bitmap_file(dim, b).len(),
        bitmap_file(dim, a).subrange(0, HEADER_LEN as int)
            == bitmap_file(dim, b).subrange(0, HEADER_LEN as int),
{
    let h = header(dim, row_length(dim.width as nat) * (dim.height as nat));
    assert(h.len() == HEADER_LEN);
    assert(bitmap_file(dim, a).subrange(0, HEADER_LEN as int) =~= h);
    assert(bitmap_file(dim, b).subrange(0, HEADER_LEN as int) =~= h);
}

/// Appends `v` as two little-endian bytes.
fn push_u16_le(out: &mut Vec<u8>, v: u16)
    ensures
        final(out)@ == old(out)@ + le16(v as int),
{
    out.push((v % 256) as u8);
    out.push((v / 256) as u8);
    assert(final(out)@ =~= old(out)@ + le16(v as int));
}

/// Appends `v` as four little-endian bytes.
fn push_u32_le(out: &mut Vec<u8>, v: u32)
    ensures
        final(out)@ == old(out)@ + le32(v as int),
{
    out.push((v % 256) as u8);
    out.push((v / 256 % 256) as u8);
    out.push((v / 65536 % 256) as u8);
    out.push((v / 16777216) as u8);
    assert(final(out)@ =~= old(out)@ + le32(v as int));
}

} // verus!
