//! An uncompressed 24-bit bitmap: a grid of quantised pixels and its byte
//! encoding (a 54-byte header, then the rows bottom-to-top, each padded to a
//! multiple of four bytes).

use vstd::arithmetic::div_mod::lemma_fundamental_div_mod_converse;
use vstd::prelude::*;

verus! {

/// One quantised pixel.
#[derive(Clone, Copy, Debug, PartialEq, Eq, Structural)]
pub struct BmpPixel {
    pub r: u8,
    pub g: u8,
    pub b: u8,
}

/// A `width` x `height` image. The rows are stored in file order: stored row
/// 0 is the bottom row of the picture.
pub struct BmpImage {
    width: u32,
    height: u32,
    data: Vec<BmpPixel>,
}

/// Length of the file header and the bitmap header together.
pub open spec fn header_len() -> nat {
    54
}

/// Zero bytes appended to each row so that its length is a multiple of four.
pub open spec fn row_padding(width: nat) -> nat {
    ((4 - (3 * width) % 4) % 4) as nat
}

/// Bytes of one encoded row, padding included.
pub open spec fn row_stride(width: nat) -> nat {
    3 * width + row_padding(width)
}

/// Length of the whole encoding.
pub open spec fn file_size(width: nat, height: nat) -> nat {
    header_len() + height * row_stride(width)
}

/// Where the pixel in picture row `row` (0 is the top) and column `col` is
/// stored.
pub open spec fn data_index(width: nat, height: nat, row: nat, col: nat) -> int {
    (height - 1 - row) * width + col
}

/// The four bytes of `n`, least significant first.
pub open spec fn le_bytes(n: u32) -> Seq<u8> {
    seq![
        (n % 256) as u8,
        ((n / 256) % 256) as u8,
        ((n / 65536) % 256) as u8,
        (n / 16777216) as u8,
    ]
}

/// The byte at offset `i` of the header: the signature, the file's length,
/// the offset of the pixel area, the bitmap header's length, width, height,
/// one plane and 24 bits per pixel; every other byte is zero.
pub open spec fn header_byte(width: u32, height: u32, i: int) -> u8 {
    if i == 0 {
        0x42u8
    } else if i == 1 {
        0x4Du8
    } else if 2 <= i < 6 {
        le_bytes(file_size(width as nat, height as nat) as u32)[i - 2]
    } else if i == 10 {
        54u8
    } else if i == 14 {
        40u8
    } else if 18 <= i < 22 {
        le_bytes(width)[i - 18]
    } else if 22 <= i < 26 {
        le_bytes(height)[i - 22]
    } else if i == 26 {
        1u8
    } else if i == 28 {
        24u8
    } else {
        0u8
    }
}

/// The 54 header bytes of a `width` x `height` image.
pub open spec fn header_bytes(width: u32, height: u32) -> Seq<u8> {
    Seq::new(header_len(), |i: int| header_byte(width, height, i))
}

/// The byte at offset `off` of the pixel area: blue, green, red of each
/// stored pixel in turn, then the row's padding.
pub open spec fn body_byte(data: Seq<BmpPixel>, width: nat, off: int) -> u8 {
    let stride = row_stride(width) as int;
    let row = off / stride;
    let c = off % stride;
    if c < 3 * width {
        let p = data[row * width + c / 3];
        if c % 3 == 0 {
            p.b
        } else if c % 3 == 1 {
            p.g
        } else {
            p.r
        }
    } else {
        0u8
    }
}

/// The encoding of stored row `row`, padding included.
pub open spec fn row_bytes(data: Seq<BmpPixel>, width: nat, row: nat) -> Seq<u8> {
    Seq::new(row_stride(width), |c: int| body_byte(data, width, row * row_stride(width) + c))
}

/// The first `height` rows of the pixel area.
pub open spec fn body_bytes(data: Seq<BmpPixel>, width: nat, height: nat) -> Seq<u8> {
    Seq::new(height * row_stride(width), |off: int| body_byte(data, width, off))
}

/// The whole encoding of an image.
pub open spec fn encoding(width: u32, height: u32, data: Seq<BmpPixel>) -> Seq<u8> {
    header_bytes(width, height) + body_bytes(data, width as nat, height as nat)
}

/// An offset inside one encoded row names that row and that offset alone.
proof fn lemma_row_offset(stride: int, row: int, c: int)
    requires
        0 <= row,
        0 <= c < stride,
    ensures
        (row * stride + c) / stride == row,
        (row * stride + c) % stride == c,
{
    lemma_fundamental_div_mod_converse(row * stride + c, stride, row, c);
}

/// The stored pixel of row `row`, column `col` lies inside the data.
proof fn lemma_index_in_range(width: int, height: int, row: int, col: int)
    requires
        0 <= row < height,
        0 <= col < width,
    ensures
        0 <= row * width + col < width * height,
        row * width + width <= width * height,
{
    assert(row * width + width == (row + 1) * width) by (nonlinear_arith);
    assert((row + 1) * width <= height * width) by (nonlinear_arith)
        requires
            row + 1 <= height,
            0 <= width,
    ;
    assert(0 <= row * width) by (nonlinear_arith)
        requires
            0 <= row,
            0 <= width,
    ;
    assert(height * width == width * height) by (nonlinear_arith);
}

/// Adding one encoded row to the first `row` rows gives the first `row + 1`.
proof fn lemma_body_step(data: Seq<BmpPixel>, width: nat, row: nat)
    ensures
        body_bytes(data, width, row + 1) == body_bytes(data, width, row) + row_bytes(
            data,
            width,
            row,
        ),
{
    let stride = row_stride(width);
    assert((row + 1) * stride == row * stride + stride) by (nonlinear_arith);
    assert(body_bytes(data, width, row + 1) =~= body_bytes(data, width, row) + row_bytes(
        data,
        width,
        row,
    ));
}

/// The header of a `width` x `height` image whose encoding has `filesize`
/// bytes.
fn header(width: u32, height: u32, filesize: u32) -> (stream: Vec<u8>)
    requires
        filesize == file_size(width as nat, height as nat),
    ensures
        stream@ == header_bytes(width, height),
{
    let size_of_header: u32 = 54;
    let size_of_bitmap_header: u32 = 40;
    let mut stream: Vec<u8> = Vec::with_capacity(filesize as usize);
    stream.push(0x42);
    stream.push(0x4D);
    push_le_bytes(&mut stream, filesize);
    stream.push(0);
    stream.push(0);
    stream.push(0);
    stream.push(0);
    stream.push(size_of_header as u8);
    stream.push(0);
    stream.push(0);
    stream.push(0);
    stream.push(size_of_bitmap_header as u8);
    stream.push(0);
    stream.push(0);
    stream.push(0);
    push_le_bytes(&mut stream, width);
    push_le_bytes(&mut stream, height);
    stream.push(1);
    stream.push(0);
    stream.push(24);
    stream.push(0);
    let ghost prefix = stream@;
    while (size_of_header as usize) > stream.len()
        invariant
            size_of_header == 54,
            prefix.len() == 30,
            30 <= stream@.len() <= 54,
            stream@ == prefix + Seq::new((stream@.len() - 30) as nat, |i: int| 0u8),
        decreases 54 - stream@.len(),
    {
        stream.push(0);
        assert(stream@ =~= prefix + Seq::new((stream@.len() - 30) as nat, |i: int| 0u8));
    }
    assert(stream@ =~= header_bytes(width, height));
    stream
}

/// Pushes the four bytes of `n`, least significant first.
fn push_le_bytes(stream: &mut Vec<u8>, n: u32)
    ensures
        final(stream)@ == old(stream)@ + le_bytes(n),
{
    let b0: u8 = ((n >> 0) & 0xFF) as u8;
    let b1: u8 = ((n >> 8) & 0xFF) as u8;
    let b2: u8 = ((n >> 16) & 0xFF) as u8;
    let b3: u8 = ((n >> 24) & 0xFF) as u8;
    assert(((n >> 0) & 0xFF) == n % 256) by (bit_vector);
    assert(((n >> 8) & 0xFF) == (n / 256) % 256) by (bit_vector);
    assert(((n >> 16) & 0xFF) == (n / 65536) % 256) by (bit_vector);
    assert(((n >> 24) & 0xFF) == n / 16777216) by (bit_vector);
    stream.push(b0);
    stream.push(b1);
    stream.push(b2);
    stream.push(b3);
    assert(stream@ =~= old(stream)@ + le_bytes(n));
}

impl BmpImage {
    /// Width in pixels.
    pub closed spec fn spec_width(&self) -> u32 {
        self.width
    }

    /// Height in pixels.
    pub closed spec fn spec_height(&self) -> u32 {
        self.height
    }

    /// The pixels in stored order: row after row from the bottom of the
    /// picture, each row from left to right.
    pub closed spec fn view(&self) -> Seq<BmpPixel> {
        self.data@
    }

    /// There is one stored pixel for each position of the grid.
    pub open spec fn wf(&self) -> bool {
        &&& self.spec_width() * self.spec_height() <= u32::MAX
        &&& self@.len() == self.spec_width() * self.spec_height()
    }

    /// The bytes that `encode` produces for this image.
    pub open spec fn spec_encode(&self) -> Seq<u8> {
        encoding(self.spec_width(), self.spec_height(), self@)
    }

    /// An all-black image.
    pub fn new(width: u32, height: u32) -> (img: BmpImage)
        requires
            width * height <= u32::MAX,
        ensures
            img.wf(),
            img.spec_width() == width,
            img.spec_height() == height,
            img@ == Seq::new((width * height) as nat, |i: int| BmpPixel { r: 0, g: 0, b: 0 }),
    {
        let n: u32 = width * height;
        let mut data: Vec<BmpPixel> = Vec::with_capacity(n as usize);
        let mut i: u32 = 0;
        while i < n
            invariant
                i <= n,
                data@ == Seq::new(i as nat, |k: int| BmpPixel { r: 0, g: 0, b: 0 }),
            decreases n - i,
        {
            data.push(BmpPixel { r: 0, g: 0, b: 0 });
            i = i + 1;
            assert(data@ =~= Seq::new(i as nat, |k: int| BmpPixel { r: 0, g: 0, b: 0 }));
        }
        BmpImage { width, height, data }
    }

    /// The length of the encoding, where it fits the header's 32-bit field.
    pub fn encoded_size(width: u32, height: u32) -> (size: Option<u32>)
        ensures
            size.is_some() <==> file_size(width as nat, height as nat) <= u32::MAX,
            size.is_some() ==> size.unwrap() == file_size(width as nat, height as nat),
    {
        let w: u128 = width as u128;
        let h: u128 = height as u128;
        let padding: u128 = (4 - (3 * w) % 4) % 4;
        let stride: u128 = 3 * w + padding;
        assert(h * stride <= 0xFFFF_FFFF * 0x3_0000_0000) by (nonlinear_arith)
            requires
                0 <= h <= 0xFFFF_FFFF,
                0 <= stride <= 0x3_0000_0000,
        ;
        let total: u128 = 54 + h * stride;
        if total <= 0xFFFF_FFFF {
            Some(total as u32)
        } else {
            None
        }
    }

    /// Stores the pixel of picture row `row` (0 is the top) and column `col`.
    pub fn set_pixel(&mut self, row: u32, col: u32, r: u8, g: u8, b: u8)
        requires
            old(self).wf(),
            row < old(self).spec_height(),
            col < old(self).spec_width(),
        ensures
            final(self).wf(),
            final(self).spec_width() == old(self).spec_width(),
            final(self).spec_height() == old(self).spec_height(),
            final(self)@ == old(self)@.update(
                data_index(
                    old(self).spec_width() as nat,
                    old(self).spec_height() as nat,
                    row as nat,
                    col as nat,
                ),
                BmpPixel { r, g, b },
            ),
    {
        let stored_row: u32 = self.height - 1 - row;
        proof {
            lemma_index_in_range(
                self.width as int,
                self.height as int,
                stored_row as int,
                col as int,
            );
        }
        let ind: usize = (stored_row * self.width + col) as usize;
        self.data.set(ind, BmpPixel { r, g, b });
    }

    /// Appends stored row `row`: its pixels as blue, green, red, then the
    /// padding.
    fn push_row(&self, stream: &mut Vec<u8>, row: u32, size_of_padding: u32)
        requires
            self.wf(),
            row < self.spec_height(),
            size_of_padding == row_padding(self.spec_width() as nat),
        ensures
            final(stream)@ == old(stream)@ + row_bytes(self@, self.spec_width() as nat, row as nat),
    {
        let ghost stride = row_stride(self.width as nat) as int;
        let ghost w = self.width as int;
        let ghost data = self.data@;
        let mut col: u32 = 0;
        while col < self.width
            invariant
                self.wf(),
                row < self.height,
                col <= self.width,
                w == self.width,
                data == self.data@,
                stride == row_stride(self.width as nat),
                stream@ == old(stream)@ + Seq::new(
                    (3 * col) as nat,
                    |c: int| body_byte(data, w as nat, row * stride + c),
                ),
            decreases self.width - col,
        {
            proof {
                lemma_index_in_range(w, self.height as int, row as int, col as int);
                lemma_row_offset(stride, row as int, 3 * col);
                lemma_row_offset(stride, row as int, 3 * col + 1);
                lemma_row_offset(stride, row as int, 3 * col + 2);
            }
            let ind: usize = (row * self.width + col) as usize;
            let p = &self.data[ind];
            stream.push(p.b);
            stream.push(p.g);
            stream.push(p.r);
            col = col + 1;
            assert(stream@ =~= old(stream)@ + Seq::new(
                (3 * col) as nat,
                |c: int| body_byte(data, w as nat, row * stride + c),
            ));
        }
        let mut pad: u32 = 0;
        while pad < size_of_padding
            invariant
                pad <= size_of_padding,
                w == self.width,
                stride == row_stride(self.width as nat),
                stride == 3 * w + size_of_padding,
                stream@ == old(stream)@ + Seq::new(
                    (3 * w + pad) as nat,
                    |c: int| body_byte(data, w as nat, row * stride + c),
                ),
            decreases size_of_padding - pad,
        {
            proof {
                lemma_row_offset(stride, row as int, 3 * w + pad);
            }
            stream.push(0);
            pad = pad + 1;
            assert(stream@ =~= old(stream)@ + Seq::new(
                (3 * w + pad) as nat,
                |c: int| body_byte(data, w as nat, row * stride + c),
            ));
        }
    }

    /// The bytes of the image file.
    pub fn encode(&self) -> (stream: Vec<u8>)
        requires
            self.wf(),
            file_size(self.spec_width() as nat, self.spec_height() as nat) <= u32::MAX,
        ensures
            stream@ == self.spec_encode(),
            stream@.len() == file_size(self.spec_width() as nat, self.spec_height() as nat),
    {
        let size_of_padding: u32 = (4 - (self.width % 4) * 3 % 4) % 4;
        assert(size_of_padding == row_padding(self.width as nat));
        let stride: u64 = 3 * (self.width as u64) + (size_of_padding as u64);
        assert(self.height * stride == self.spec_height() as nat * row_stride(
            self.spec_width() as nat,
        ));
        let filesize: u32 = (54 + (self.height as u64) * stride) as u32;
        let mut stream = header(self.width, self.height, filesize);
        let mut row: u32 = 0;
        while row < self.height
            invariant
                self.wf(),
                row <= self.height,
                size_of_padding == row_padding(self.width as nat),
                stream@ == header_bytes(self.width, self.height) + body_bytes(
                    self@,
                    self.width as nat,
                    row as nat,
                ),
            decreases self.height - row,
        {
            self.push_row(&mut stream, row, size_of_padding);
            proof {
                lemma_body_step(self@, self.width as nat, row as nat);
            }
            row = row + 1;
        }
        stream
    }
}

/// Where the encoding holds the blue byte of the pixel in picture row `row`
/// (0 is the top) and column `col`; green and red follow it.
pub open spec fn pixel_offset(width: nat, height: nat, row: nat, col: nat) -> int {
    header_len() + (height - 1 - row) * row_stride(width) + 3 * col
}

/// The number whose four bytes, least significant first, start at `at`.
pub open spec fn le_value(bytes: Seq<u8>, at: int) -> int {
    bytes[at] + 256 * bytes[at + 1] + 65536 * bytes[at + 2] + 16777216 * bytes[at + 3]
}

/// Every encoded row ends on a four-byte boundary, and the padding that
/// brings it there is shorter than four bytes.
pub proof fn lemma_rows_aligned(width: nat)
    ensures
        row_stride(width) % 4 == 0,
        row_padding(width) < 4,
{
}

/// The encoding has the length that its header announces, and the header
/// gives the picture's width and height.
pub proof fn lemma_header_fields(width: u32, height: u32, data: Seq<BmpPixel>)
    requires
        file_size(width as nat, height as nat) <= u32::MAX,
    ensures
        encoding(width, height, data).len() == file_size(width as nat, height as nat),
        encoding(width, height, data)[0] == 0x42,
        encoding(width, height, data)[1] == 0x4D,
        le_value(encoding(width, height, data), 2) == file_size(width as nat, height as nat),
        le_value(encoding(width, height, data), 10) == header_len(),
        le_value(encoding(width, height, data), 18) == width,
        le_value(encoding(width, height, data), 22) == height,
{
    let e = encoding(width, height, data);
    let hd = header_bytes(width, height);
    assert forall|i: int| 0 <= i < 54 implies e[i] == header_byte(width, height, i) by {
        assert(e[i] == hd[i]);
    }
}

/// Reading an encoding back gives the pixels that went in: the pixel of
/// picture row `row` and column `col` stands at `pixel_offset` as blue,
/// green, red, so that the top row of the picture comes last in the file.
pub proof fn lemma_encoded_pixel(width: u32, height: u32, data: Seq<BmpPixel>, row: nat, col: nat)
    requires
        data.len() == width * height,
        row < height,
        col < width,
    ensures
        header_len() <= pixel_offset(width as nat, height as nat, row, col),
        pixel_offset(width as nat, height as nat, row, col) + 2 < encoding(
            width,
            height,
            data,
        ).len(),
        0 <= data_index(width as nat, height as nat, row, col) < data.len(),
        encoding(width, height, data)[pixel_offset(width as nat, height as nat, row, col)]
            == data[data_index(width as nat, height as nat, row, col)].b,
        encoding(width, height, data)[pixel_offset(width as nat, height as nat, row, col) + 1]
            == data[data_index(width as nat, height as nat, row, col)].g,
        encoding(width, height, data)[pixel_offset(width as nat, height as nat, row, col) + 2]
            == data[data_index(width as nat, height as nat, row, col)].r,
{
    let stride = row_stride(width as nat) as int;
    let stored = height - 1 - row;
    lemma_index_in_range(width as int, height as int, stored, col as int);
    lemma_row_offset(stride, stored, 3 * col as int);
    lemma_row_offset(stride, stored, 3 * col as int + 1);
    lemma_row_offset(stride, stored, 3 * col as int + 2);
    assert(stored * stride + stride <= height * stride) by (nonlinear_arith)
        requires
            0 <= stored < height,
            0 <= stride,
    ;
    assert(header_bytes(width, height).len() == 54);
}

} // verus!
