//! Frames as terminal output: one character cell for every two rows of
//! pixels, the upper pixel as foreground and the lower as background of an
//! upper half block.

use vstd::arithmetic::div_mod::{lemma_fundamental_div_mod_converse, lemma_div_is_ordered};
use vstd::arithmetic::mul::{lemma_mul_inequality, lemma_mul_is_commutative};
use vstd::array::array_as_slice;
use vstd::prelude::*;

use crate::bytes::ByteReader;
use crate::error::ErrorKind;
use crate::packet::{EncodableData, PacketDataType, TypedData};
use crate::palette::Rgb;
use crate::text::{decimal_digits, push_decimal_bytes};

verus! {

/// A pixel that is an index into the palette.
#[derive(Clone, Copy, Debug)]
pub struct Luma(pub [u8; 1]);

/// The upper half block in UTF-8.
pub open spec fn half_block() -> Seq<u8> {
    seq![0xe2u8, 0x96u8, 0x80u8]
}

/// The escape sequence that moves the cursor to the start of the next line.
pub open spec fn next_line() -> Seq<u8> {
    seq![0x1bu8, 0x5bu8, 0x31u8, 0x45u8]
}

/// The escape sequence that sets a colour: `ESC [`, then `38` for the
/// foreground or `48` for the background, `;`, then `mode`, which is `2` for a
/// 24-bit colour and `5` for an index, `;`.
pub open spec fn sgr_start(background: bool, mode: u8) -> Seq<u8> {
    seq![0x1bu8, 0x5bu8, if background { 0x34u8 } else { 0x33u8 }, 0x38u8, 0x3bu8, mode, 0x3bu8]
}

/// The escape sequence that sets the colour `r`, `g`, `b`.
pub open spec fn rgb_code(background: bool, r: u8, g: u8, b: u8) -> Seq<u8> {
    sgr_start(background, 0x32) + decimal_digits(r as nat) + seq![0x3bu8] + decimal_digits(
        g as nat,
    ) + seq![0x3bu8] + decimal_digits(b as nat) + seq![0x6du8]
}

/// The escape sequence that sets the colour at the palette index `index`.
pub open spec fn indexed_code(background: bool, index: u8) -> Seq<u8> {
    sgr_start(background, 0x35) + decimal_digits(index as nat) + seq![0x6du8]
}

/// Appends the start of a colour sequence.
fn push_sgr_start(out: &mut Vec<u8>, background: bool, mode: u8)
    ensures
        final(out)@ == old(out)@ + sgr_start(background, mode),
{
    let start: [u8; 7] = [0x1b, 0x5b, if background { 0x34 } else { 0x33 }, 0x38, 0x3b, mode, 0x3b];
    out.extend_from_slice(array_as_slice(&start));
    proof {
        assert(start@ =~= sgr_start(background, mode));
    }
}

/// A pixel that can be shown on a terminal.
pub trait AnsiPixel: Sized {
    /// The escape sequence that makes the pixel the foreground colour.
    spec fn fg_bytes(&self) -> Seq<u8>;

    /// The escape sequence that makes the pixel the background colour.
    spec fn bg_bytes(&self) -> Seq<u8>;

    /// Whether two pixels have the same colour.
    spec fn same_as(&self, other: &Self) -> bool;

    /// Appends the escape sequence that makes the pixel the foreground colour.
    fn fg_code(&self, out: &mut Vec<u8>)
        ensures
            final(out)@ == old(out)@ + self.fg_bytes(),
    ;

    /// Appends the escape sequence that makes the pixel the background colour.
    fn bg_code(&self, out: &mut Vec<u8>)
        ensures
            final(out)@ == old(out)@ + self.bg_bytes(),
    ;

    /// Whether two pixels have the same colour.
    fn same(&self, other: &Self) -> (b: bool)
        ensures
            b == self.same_as(other),
    ;

    /// A copy of the pixel.
    fn copy(&self) -> (p: Self)
        ensures
            p == *self,
    ;

    /// Being the same colour is reflexive.
    proof fn lemma_same_reflexive(&self)
        ensures
            self.same_as(self),
    ;
}

impl AnsiPixel for Luma {
    open spec fn fg_bytes(&self) -> Seq<u8> {
        indexed_code(false, self.0@[0])
    }

    open spec fn bg_bytes(&self) -> Seq<u8> {
        indexed_code(true, self.0@[0])
    }

    open spec fn same_as(&self, other: &Self) -> bool {
        self.0@[0] == other.0@[0]
    }

    fn fg_code(&self, out: &mut Vec<u8>) {
        push_sgr_start(out, false, 0x35);
        push_decimal_bytes(out, self.0[0]);
        out.push(0x6d);
        proof {
            assert(out@ =~= old(out)@ + self.fg_bytes());
        }
    }

    fn bg_code(&self, out: &mut Vec<u8>) {
        push_sgr_start(out, true, 0x35);
        push_decimal_bytes(out, self.0[0]);
        out.push(0x6d);
        proof {
            assert(out@ =~= old(out)@ + self.bg_bytes());
        }
    }

    fn same(&self, other: &Self) -> (b: bool) {
        self.0[0] == other.0[0]
    }

    fn copy(&self) -> (p: Self) {
        *self
    }

    proof fn lemma_same_reflexive(&self) {
    }
}

impl AnsiPixel for Rgb {
    open spec fn fg_bytes(&self) -> Seq<u8> {
        rgb_code(false, self.0@[0], self.0@[1], self.0@[2])
    }

    open spec fn bg_bytes(&self) -> Seq<u8> {
        rgb_code(true, self.0@[0], self.0@[1], self.0@[2])
    }

    open spec fn same_as(&self, other: &Self) -> bool {
        self.0@[0] == other.0@[0] && self.0@[1] == other.0@[1] && self.0@[2] == other.0@[2]
    }

    fn fg_code(&self, out: &mut Vec<u8>) {
        push_sgr_start(out, false, 0x32);
        push_decimal_bytes(out, self.0[0]);
        out.push(0x3b);
        push_decimal_bytes(out, self.0[1]);
        out.push(0x3b);
        push_decimal_bytes(out, self.0[2]);
        out.push(0x6d);
        proof {
            assert(out@ =~= old(out)@ + self.fg_bytes());
        }
    }

    fn bg_code(&self, out: &mut Vec<u8>) {
        push_sgr_start(out, true, 0x32);
        push_decimal_bytes(out, self.0[0]);
        out.push(0x3b);
        push_decimal_bytes(out, self.0[1]);
        out.push(0x3b);
        push_decimal_bytes(out, self.0[2]);
        out.push(0x6d);
        proof {
            assert(out@ =~= old(out)@ + self.bg_bytes());
        }
    }

    fn same(&self, other: &Self) -> (b: bool) {
        self.0[0] == other.0[0] && self.0[1] == other.0[1] && self.0[2] == other.0[2]
    }

    fn copy(&self) -> (p: Self) {
        *self
    }

    proof fn lemma_same_reflexive(&self) {
    }
}

/// A raster of pixels, row after row from the top.
pub struct ImageBuffer<P> {
    width: u32,
    height: u32,
    pixels: Vec<P>,
}

impl<P> ImageBuffer<P> {
    #[verifier::type_invariant]
    spec fn well_formed(self) -> bool {
        self.pixels@.len() == self.width * self.height
    }

    /// The number of pixels in a row.
    pub closed spec fn columns(&self) -> int {
        self.width as int
    }

    /// The number of rows.
    pub closed spec fn rows(&self) -> int {
        self.height as int
    }

    /// The pixels, row after row.
    pub closed spec fn pixels(&self) -> Seq<P> {
        self.pixels@
    }

    /// The raster of `width` by `height` pixels that holds `pixels`, or `None`
    /// where their number is another.
    pub fn from_vec(width: u32, height: u32, pixels: Vec<P>) -> (r: Option<ImageBuffer<P>>)
        ensures
            match r {
                Some(image) => image.columns() == width && image.rows() == height
                    && image.pixels() == pixels@ && pixels@.len() == width * height,
                None => pixels@.len() != width * height,
            },
    {
        assert((width as u64) * (height as u64) <= 0xffff_ffff * 0xffff_ffff) by (nonlinear_arith)
            requires
                width <= 0xffff_ffff,
                height <= 0xffff_ffff,
        ;
        if pixels.len() as u64 == (width as u64) * (height as u64) {
            Some(ImageBuffer { width, height, pixels })
        } else {
            None
        }
    }

    /// The number of pixels in a row.
    pub fn width(&self) -> (w: u32)
        ensures
            w == self.columns(),
            self.pixels().len() == self.columns() * self.rows(),
            0 <= self.columns() <= u32::MAX,
            0 <= self.rows() <= u32::MAX,
    {
        proof {
            use_type_invariant(self);
        }
        self.width
    }

    /// The number of rows.
    pub fn height(&self) -> (h: u32)
        ensures
            h == self.rows(),
    {
        self.height
    }

    /// The pixels, row after row.
    pub fn as_slice(&self) -> (s: &[P])
        ensures
            s@ == self.pixels(),
            s@.len() == self.columns() * self.rows(),
    {
        proof {
            use_type_invariant(self);
        }
        self.pixels.as_slice()
    }

    /// The pixels, row after row.
    pub fn into_vec(self) -> (v: Vec<P>)
        ensures
            v@ == self.pixels(),
    {
        self.pixels
    }
}

/// The upper pixel of the `k`-th cell of a raster with rows of `w` pixels,
/// the cells counted row after row.
pub open spec fn upper_at<P>(pixels: Seq<P>, w: int, k: int) -> P {
    pixels[2 * (k / w) * w + k % w]
}

/// The lower pixel of the `k`-th cell.
pub open spec fn lower_at<P>(pixels: Seq<P>, w: int, k: int) -> P {
    pixels[(2 * (k / w) + 1) * w + k % w]
}

/// The bytes of the `k`-th cell: the foreground colour where the upper pixel
/// is not that of the cell before, the background colour where the lower
/// pixel is not, the half block, and the move to the next line after the last
/// cell of a row.
pub open spec fn cell_bytes<P: AnsiPixel>(pixels: Seq<P>, w: int, k: int) -> Seq<u8> {
    let up = upper_at(pixels, w, k);
    let low = lower_at(pixels, w, k);
    (if k == 0 || !upper_at(pixels, w, k - 1).same_as(&up) {
        up.fg_bytes()
    } else {
        Seq::empty()
    }) + (if k == 0 || !lower_at(pixels, w, k - 1).same_as(&low) {
        low.bg_bytes()
    } else {
        Seq::empty()
    }) + half_block() + (if k % w == w - 1 {
        next_line()
    } else {
        Seq::empty()
    })
}

/// The bytes of the first `n` cells.
pub open spec fn cells_bytes<P: AnsiPixel>(pixels: Seq<P>, w: int, n: int) -> Seq<u8>
    decreases n,
{
    if n <= 0 {
        Seq::empty()
    } else {
        cells_bytes(pixels, w, n - 1) + cell_bytes(pixels, w, n - 1)
    }
}

/// `n` moves to the next line.
pub open spec fn next_lines(n: int) -> Seq<u8>
    decreases n,
{
    if n <= 0 {
        Seq::empty()
    } else {
        next_lines(n - 1) + next_line()
    }
}

/// The bytes of a frame of `w` by `h` pixels: a row of cells for every two
/// rows of pixels; a last odd row of pixels is left out.
pub open spec fn frame_ansi<P: AnsiPixel>(pixels: Seq<P>, w: int, h: int) -> Seq<u8> {
    if w <= 0 {
        next_lines(h / 2)
    } else {
        cells_bytes(pixels, w, (h / 2) * w)
    }
}

/// A frame that can be written as terminal output.
pub trait ToAnsi {
    /// The terminal output that shows the frame.
    spec fn ansi(&self) -> Seq<u8>;

    /// Appends the terminal output that shows the frame.
    fn to_ansi(&self, frame: &mut Vec<u8>) -> (r: Result<(), ErrorKind>)
        ensures
            r is Ok,
            final(frame)@ == old(frame)@ + self.ansi(),
    ;

    /// A guess at the number of bytes of the output, where there is one.
    spec fn guess(&self) -> Option<usize>;

    /// A guess at the number of bytes of the output.
    fn est_size(&self) -> (r: Option<usize>)
        ensures
            r == self.guess(),
    ;
}

impl<P: AnsiPixel> ToAnsi for ImageBuffer<P> {
    open spec fn ansi(&self) -> Seq<u8> {
        frame_ansi(self.pixels(), self.columns(), self.rows())
    }

    fn to_ansi(&self, frame: &mut Vec<u8>) -> (r: Result<(), ErrorKind>) {
        proof {
            use_type_invariant(self);
        }
        let w: usize = self.width as usize;
        let pairs: usize = (self.height / 2) as usize;
        let total: usize = self.pixels.len();
        let ghost pixels = self.pixels@;
        let ghost wi = w as int;
        let ghost h = self.height as int;
        if w == 0 {
            let mut row: usize = 0;
            while row < pairs
                invariant
                    row <= pairs,
                    frame@ == old(frame)@ + next_lines(row as int),
                decreases pairs - row,
            {
                push_next_line(frame);
                proof {
                    assert(frame@ =~= old(frame)@ + next_lines(row + 1));
                }
                row = row + 1;
            }
            return Ok(());
        }
        let mut last_upper: Option<P> = None;
        let mut last_lower: Option<P> = None;
        let mut row: usize = 0;
        let mut base: usize = 0;
        proof {
            lemma_mul_inequality(2 * (pairs as int), h, wi);
            assert(2 * pairs * wi <= pixels.len());
            lemma_div_is_ordered(0, h, 2);
        }
        while row < pairs
            invariant
                row <= pairs,
                pairs == h / 2,
                w == wi,
                wi > 0,
                pixels == self.pixels@,
                pixels.len() == wi * h,
                pixels.len() == total,
                base == 2 * row * wi,
                2 * pairs * wi <= pixels.len(),
                row == 0 ==> last_upper is None && last_lower is None,
                row > 0 ==> last_upper == Some(upper_at(pixels, wi, row * wi - 1)) && last_lower
                    == Some(lower_at(pixels, wi, row * wi - 1)),
                frame@ == old(frame)@ + cells_bytes(pixels, wi, row * wi),
            decreases pairs - row,
        {
            proof {
                lemma_mul_inequality(2 * row + 2, 2 * (pairs as int), wi);
                assert((2 * row + 2) * wi == 2 * row * wi + 2 * wi) by (nonlinear_arith);
                assert((2 * row + 1) * wi == 2 * row * wi + wi) by (nonlinear_arith);
            }
            let mut x: usize = 0;
            while x < w
                invariant
                    x <= w,
                    row < pairs,
                    w == wi,
                    wi > 0,
                    pixels == self.pixels@,
                    pixels.len() == total,
                    base == 2 * row * wi,
                    base + 2 * wi <= pixels.len(),
                    (2 * row + 1) * wi == base + wi,
                    row == 0 && x == 0 ==> last_upper is None && last_lower is None,
                    row > 0 || x > 0 ==> last_upper == Some(
                        upper_at(pixels, wi, row * wi + x - 1),
                    ) && last_lower == Some(lower_at(pixels, wi, row * wi + x - 1)),
                    frame@ == old(frame)@ + cells_bytes(pixels, wi, row * wi + x),
                decreases w - x,
            {
                let ghost k = row * wi + x;
                let ghost before = frame@;
                proof {
                    lemma_fundamental_div_mod_converse(k, wi, row as int, x as int);
                    assert(row * wi >= 0) by (nonlinear_arith)
                        requires
                            row >= 0,
                            wi > 0,
                    ;
                    assert(k == 0 <==> (row == 0 && x == 0)) by (nonlinear_arith)
                        requires
                            k == row * wi + x,
                            row >= 0,
                            x >= 0,
                            wi > 0,
                            x < wi,
                    ;
                }
                let upper: P = self.pixels[base + x].copy();
                let lower: P = self.pixels[base + w + x].copy();
                proof {
                    assert(upper == upper_at(pixels, wi, k));
                    assert(lower == lower_at(pixels, wi, k));
                }
                let fresh_upper: bool = match &last_upper {
                    Some(v) => !v.same(&upper),
                    None => true,
                };
                if fresh_upper {
                    upper.fg_code(frame);
                }
                let fresh_lower: bool = match &last_lower {
                    Some(v) => !v.same(&lower),
                    None => true,
                };
                if fresh_lower {
                    lower.bg_code(frame);
                }
                push_half_block(frame);
                if x == w - 1 {
                    push_next_line(frame);
                }
                proof {
                    assert(frame@ =~= before + cell_bytes(pixels, wi, k));
                }
                last_upper = Some(upper);
                last_lower = Some(lower);
                x = x + 1;
            }
            proof {
                assert((row + 1) * wi == row * wi + wi) by (nonlinear_arith);
                assert(2 * (row + 1) * wi == 2 * row * wi + 2 * wi) by (nonlinear_arith);
            }
            base = base + 2 * w;
            row = row + 1;
        }
        Ok(())
    }

    /// Twenty bytes for every pixel, where that can be counted.
    open spec fn guess(&self) -> Option<usize> {
        if self.columns() * self.rows() * 20 <= usize::MAX {
            Some((self.columns() * self.rows() * 20) as usize)
        } else {
            None
        }
    }

    fn est_size(&self) -> (r: Option<usize>) {
        assert((self.width as u64) * (self.height as u64) <= 0xffff_ffff * 0xffff_ffff)
            by (nonlinear_arith)
            requires
                self.width <= 0xffff_ffff,
                self.height <= 0xffff_ffff,
        ;
        let pixels: u64 = (self.width as u64) * (self.height as u64);
        if pixels <= (usize::MAX / 20) as u64 {
            Some((pixels * 20) as usize)
        } else {
            None
        }
    }
}

/// Appends the upper half block.
fn push_half_block(out: &mut Vec<u8>)
    ensures
        final(out)@ == old(out)@ + half_block(),
{
    out.push(0xe2);
    out.push(0x96);
    out.push(0x80);
    proof {
        assert(out@ =~= old(out)@ + half_block());
    }
}

/// Appends the move to the next line.
fn push_next_line(out: &mut Vec<u8>)
    ensures
        final(out)@ == old(out)@ + next_line(),
{
    out.push(0x1b);
    out.push(0x5b);
    out.push(0x31);
    out.push(0x45);
    proof {
        assert(out@ =~= old(out)@ + next_line());
    }
}

/// A frame as the payload of a video packet.
pub struct AnsiFrame<T: ToAnsi> {
    inner: T,
}

impl<T: ToAnsi> AnsiFrame<T> {
    /// The frame.
    pub closed spec fn frame(&self) -> T {
        self.inner
    }

    /// The payload that holds `inner`.
    pub fn from(inner: T) -> (f: AnsiFrame<T>)
        ensures
            f.frame() == inner,
    {
        AnsiFrame { inner }
    }

    /// The frame.
    pub fn into_inner(self) -> (inner: T)
        ensures
            inner == self.frame(),
    {
        self.inner
    }

    /// The frame.
    pub fn get(&self) -> (inner: &T)
        ensures
            *inner == self.frame(),
    {
        &self.inner
    }
}

impl<T: ToAnsi> EncodableData for AnsiFrame<T> {
    open spec fn encodable(&self) -> bool {
        true
    }

    open spec fn encoding(&self) -> Seq<u8> {
        self.frame().ansi()
    }

    /// The guess of the frame.
    fn estimated_size(&self) -> (r: Option<usize>)
        ensures
            r == self.frame().guess(),
    {
        self.inner.est_size()
    }

    fn encode_into(&self, out: &mut Vec<u8>) -> (n: u64) {
        let before: usize = out.len();
        let _ = self.inner.to_ansi(out);
        (out.len() - before) as u64
    }

    /// A frame cannot be read back from its terminal output: `InvalidData`.
    fn decode_from(input: &mut ByteReader) -> (r: Result<Self, ErrorKind>)
        ensures
            r matches Err(e) && e == ErrorKind::InvalidData,
            *final(input) == *old(input),
    {
        Err(ErrorKind::InvalidData)
    }
}

impl<T: ToAnsi> TypedData for AnsiFrame<T> {
    const KIND: PacketDataType = PacketDataType::Video;
}

/// The bytes of `n` cells in rows of `w` that set no colour: half blocks, and
/// the move to the next line after every `w`-th.
pub open spec fn plain_cells(w: int, n: int) -> Seq<u8>
    decreases n,
{
    if n <= 0 {
        Seq::empty()
    } else {
        plain_cells(w, n - 1) + half_block() + (if (n - 1) % w == w - 1 {
            next_line()
        } else {
            Seq::empty()
        })
    }
}

/// A frame of one colour sets the foreground once and the background once, in
/// front of its first cell, and no colour after that.
pub proof fn law_uniform_frame<P: AnsiPixel>(pixels: Seq<P>, w: int, h: int, color: P)
    requires
        w >= 1,
        h >= 2,
        pixels.len() == w * h,
        forall|i: int| 0 <= i < pixels.len() ==> pixels[i] == color,
    ensures
        frame_ansi(pixels, w, h) == color.fg_bytes() + color.bg_bytes() + plain_cells(
            w,
            (h / 2) * w,
        ),
{
    let n = (h / 2) * w;
    assert(n >= 1) by (nonlinear_arith)
        requires
            n == (h / 2) * w,
            h / 2 >= 1,
            w >= 1,
    ;
    assert(2 * (h / 2) * w <= h * w) by (nonlinear_arith)
        requires
            2 * (h / 2) <= h,
            w >= 1,
    ;
    lemma_uniform_cells(pixels, w, h, color, n);
}

/// The first `n` cells of a frame of one colour.
proof fn lemma_uniform_cells<P: AnsiPixel>(pixels: Seq<P>, w: int, h: int, color: P, n: int)
    requires
        w >= 1,
        pixels.len() == w * h,
        forall|i: int| 0 <= i < pixels.len() ==> pixels[i] == color,
        1 <= n <= (h / 2) * w,
        2 * (h / 2) * w <= h * w,
    ensures
        cells_bytes(pixels, w, n) == color.fg_bytes() + color.bg_bytes() + plain_cells(w, n),
    decreases n,
{
    color.lemma_same_reflexive();
    lemma_cell_pixels(pixels, w, h, n - 1);
    if n == 1 {
        assert(cells_bytes(pixels, w, 0) =~= Seq::<u8>::empty());
        assert(plain_cells(w, 0) =~= Seq::<u8>::empty());
        assert(cells_bytes(pixels, w, 1) =~= color.fg_bytes() + color.bg_bytes() + plain_cells(
            w,
            1,
        ));
    } else {
        lemma_uniform_cells(pixels, w, h, color, n - 1);
        lemma_cell_pixels(pixels, w, h, n - 2);
        assert(cells_bytes(pixels, w, n) =~= color.fg_bytes() + color.bg_bytes() + plain_cells(
            w,
            n,
        ));
    }
}

/// The two pixels of a cell lie in the raster.
proof fn lemma_cell_pixels<P>(pixels: Seq<P>, w: int, h: int, k: int)
    requires
        w >= 1,
        pixels.len() == w * h,
        0 <= k < (h / 2) * w,
        2 * (h / 2) * w <= h * w,
    ensures
        0 <= 2 * (k / w) * w + k % w < pixels.len(),
        0 <= (2 * (k / w) + 1) * w + k % w < pixels.len(),
{
    let row = k / w;
    let x = k % w;
    assert(0 <= x < w);
    assert(0 <= row < h / 2) by (nonlinear_arith)
        requires
            row == k / w,
            0 <= k < (h / 2) * w,
            w >= 1,
    ;
    assert((2 * row + 1) * w + x < 2 * (h / 2) * w) by (nonlinear_arith)
        requires
            0 <= row < h / 2,
            0 <= x < w,
    ;
    assert(0 <= 2 * row * w + x <= (2 * row + 1) * w + x) by (nonlinear_arith)
        requires
            0 <= row,
            0 <= x,
            w >= 1,
    ;
}

} // verus!
