//! The image: a grid of 8-bit pixels and its plain-text form.

use vstd::prelude::*;
use crate::number::Real;
use crate::vec3::Color;
use crate::utils::{clamp, clamp_spec};

verus! {

/// A pixel: red, green, blue.
#[derive(Debug, Clone, Copy, PartialEq, Eq)]
pub struct RGB(pub u8, pub u8, pub u8);

/// An image, its rows from top to bottom.
pub struct PPM {
    pub width: u32,
    pub height: u32,
    pub pixels: Vec<Vec<RGB>>,
}

/// The decimal digits of `n` as ASCII.
pub open spec fn decimal(n: nat) -> Seq<u8>
    decreases n,
{
    if n < 10 {
        seq![(48 + n) as u8]
    } else {
        decimal(n / 10).push((48 + n % 10) as u8)
    }
}

/// The header: the mark of a plain pixmap, then width and height, then the
/// largest channel value,
/// each on a line of its own.
pub open spec fn header_text(width: u32, height: u32) -> Seq<u8> {
    seq![80u8, 51u8, 10u8] + decimal(width as nat) + seq![32u8] + decimal(height as nat) + seq![
        10u8,
        50u8,
        53u8,
        53u8,
        10u8,
    ]
}

/// A pixel: its three channels, a space after each.
pub open spec fn pixel_text(p: RGB) -> Seq<u8> {
    decimal(p.0 as nat) + seq![32u8] + decimal(p.1 as nat) + seq![32u8] + decimal(p.2 as nat)
        + seq![32u8]
}

/// The first `n` pixels of a row, one after another.
pub open spec fn pixels_text(row: Seq<RGB>, n: nat) -> Seq<u8>
    recommends
        n <= row.len(),
    decreases n,
{
    if n == 0 {
        Seq::empty()
    } else {
        pixels_text(row, (n - 1) as nat) + pixel_text(row[n - 1])
    }
}

/// A row: its pixels, then a line feed.
pub open spec fn row_text(row: Seq<RGB>) -> Seq<u8> {
    pixels_text(row, row.len()) + seq![10u8]
}

/// The first `n` rows, one after another.
pub open spec fn rows_text(rows: Seq<Seq<RGB>>, n: nat) -> Seq<u8>
    recommends
        n <= rows.len(),
    decreases n,
{
    if n == 0 {
        Seq::empty()
    } else {
        rows_text(rows, (n - 1) as nat) + row_text(rows[n - 1])
    }
}

/// An image as text: the header, then each row on a line.
pub open spec fn image_text(width: u32, height: u32, rows: Seq<Seq<RGB>>) -> Seq<u8> {
    header_text(width, height) + rows_text(rows, rows.len())
}

/// A channel of a colour as a byte: the whole part of `255.99` times the
/// channel.
pub open spec fn channel_byte(c: Real) -> u8 {
    c.times(Real::of_ratio(25599, 100)).to_byte_spec()
}

/// The pixel of a colour.
pub open spec fn pixel_of(color: Color) -> RGB {
    RGB(channel_byte(color.0), channel_byte(color.1), channel_byte(color.2))
}

/// A channel of a sum of samples as a byte: the mean of the samples, its
/// square root for gamma 2, held to `[0, 0.999]`, times 256, whole part.
pub open spec fn sampled_channel_byte(sum: Real, samples: u32) -> u8 {
    let mean = sum.over(Real::of_int(samples as int));
    let held = clamp_spec(mean.sqrt_spec(), Real::of_int(0), Real::of_ratio(999, 1000));
    Real::of_int(256).times(held).to_byte_spec()
}

/// The pixel of a sum of samples.
pub open spec fn sampled_pixel_of(sum: Color, samples: u32) -> RGB {
    RGB(
        sampled_channel_byte(sum.0, samples),
        sampled_channel_byte(sum.1, samples),
        sampled_channel_byte(sum.2, samples),
    )
}

/// Appends the decimal digits of `n`.
fn push_decimal(out: &mut Vec<u8>, n: u32)
    ensures
        final(out)@ == old(out)@ + decimal(n as nat),
    decreases n,
{
    if n < 10 {
        out.push(48 + n as u8);
        assert(out@ =~= old(out)@ + decimal(n as nat));
    } else {
        push_decimal(out, n / 10);
        out.push(48 + (n % 10) as u8);
        assert(out@ =~= old(out)@ + decimal(n as nat));
    }
}

/// Appends a pixel.
fn push_pixel(out: &mut Vec<u8>, p: RGB)
    ensures
        final(out)@ == old(out)@ + pixel_text(p),
{
    push_decimal(out, p.0 as u32);
    out.push(32);
    push_decimal(out, p.1 as u32);
    out.push(32);
    push_decimal(out, p.2 as u32);
    out.push(32);
    assert(out@ =~= old(out)@ + pixel_text(p));
}

/// The byte of one channel of a colour.
pub fn quantize(c: Real) -> (b: u8)
    ensures
        b == channel_byte(c),
{
    (c * Real::from_ratio(25599, 100)).to_byte()
}

/// The byte of one channel of a sum of samples.
pub fn quantize_samples(sum: Real, samples: u32) -> (b: u8)
    ensures
        b == sampled_channel_byte(sum, samples),
{
    let mean = sum / Real::from_i64(samples as i64);
    let held = clamp(mean.sqrt(), Real::from_i64(0), Real::from_ratio(999, 1000));
    (Real::from_i64(256) * held).to_byte()
}

impl PPM {
    /// There are `height` rows of `width` pixels each.
    pub open spec fn wf(&self) -> bool {
        &&& self.pixels@.len() == self.height
        &&& forall|i: int| 0 <= i < self.pixels@.len() ==> (#[trigger] self.pixels@[i])@.len() == self.width
    }

    /// The pixel in row `row` and column `column`.
    pub open spec fn at(&self, row: int, column: int) -> RGB {
        self.pixels@[row]@[column]
    }

    /// The rows of the image, from top to bottom.
    pub open spec fn rows(&self) -> Seq<Seq<RGB>> {
        Seq::new(self.pixels@.len(), |i: int| self.pixels@[i]@)
    }

    /// The image as text.
    pub open spec fn text(&self) -> Seq<u8> {
        image_text(self.width, self.height, self.rows())
    }

    /// A black image.
    pub fn new(width: u32, height: u32) -> (image: PPM)
        ensures
            image.wf(),
            image.width == width,
            image.height == height,
            forall|i: int, j: int|
                0 <= i < height && 0 <= j < width ==> image.at(i, j) == RGB(0, 0, 0),
    {
        let mut pixels: Vec<Vec<RGB>> = Vec::new();
        let mut i: u32 = 0;
        while i < height
            invariant
                i <= height,
                pixels@.len() == i,
                forall|r: int| 0 <= r < i ==> (#[trigger] pixels@[r])@.len() == width,
                forall|r: int, c: int|
                    0 <= r < i && 0 <= c < width ==> #[trigger] pixels@[r]@[c] == RGB(0, 0, 0),
            decreases height - i,
        {
            let mut row: Vec<RGB> = Vec::new();
            let mut j: u32 = 0;
            while j < width
                invariant
                    j <= width,
                    row@.len() == j,
                    forall|c: int| 0 <= c < j ==> row@[c] == RGB(0, 0, 0),
                decreases width - j,
            {
                row.push(RGB(0, 0, 0));
                j = j + 1;
            }
            pixels.push(row);
            i = i + 1;
        }
        PPM { width, height, pixels }
    }

    /// Puts `pixel` at row `row`, column `column`.
    pub fn put(&mut self, row: usize, column: usize, pixel: RGB)
        requires
            old(self).wf(),
            row < old(self).height,
            column < old(self).width,
        ensures
            final(self).wf(),
            final(self).width == old(self).width,
            final(self).height == old(self).height,
            final(self).at(row as int, column as int) == pixel,
            forall|i: int, j: int|
                0 <= i < old(self).height && 0 <= j < old(self).width && (i != row || j != column)
                    ==> final(self).at(i, j) == old(self).at(i, j),
    {
        self.pixels[row][column] = pixel;
    }

    /// Puts `pixels` in place of row `row`.
    pub fn put_row(&mut self, row: usize, pixels: Vec<RGB>)
        requires
            old(self).wf(),
            row < old(self).height,
            pixels@.len() == old(self).width,
        ensures
            final(self).wf(),
            final(self).width == old(self).width,
            final(self).height == old(self).height,
            final(self).pixels@[row as int] == pixels,
            forall|i: int|
                0 <= i < old(self).height && i != row ==> final(self).pixels@[i] == old(
                    self,
                ).pixels@[i],
    {
        self.pixels[row] = pixels;
    }

    /// Sets a pixel from a colour: each channel times `255.99`, whole part.
    pub fn set(&mut self, row: usize, column: usize, color: Color)
        requires
            old(self).wf(),
            row < old(self).height,
            column < old(self).width,
        ensures
            final(self).wf(),
            final(self).width == old(self).width,
            final(self).height == old(self).height,
            final(self).at(row as int, column as int) == pixel_of(color),
            forall|i: int, j: int|
                0 <= i < old(self).height && 0 <= j < old(self).width && (i != row || j != column)
                    ==> final(self).at(i, j) == old(self).at(i, j),
    {
        let pixel = RGB(quantize(color.0), quantize(color.1), quantize(color.2));
        self.put(row, column, pixel);
    }

    /// Sets a pixel from the sum of `samples` colours.
    pub fn set_with_samples(&mut self, row: usize, column: usize, color: Color, samples: u32)
        requires
            old(self).wf(),
            row < old(self).height,
            column < old(self).width,
        ensures
            final(self).wf(),
            final(self).width == old(self).width,
            final(self).height == old(self).height,
            final(self).at(row as int, column as int) == sampled_pixel_of(color, samples),
            forall|i: int, j: int|
                0 <= i < old(self).height && 0 <= j < old(self).width && (i != row || j != column)
                    ==> final(self).at(i, j) == old(self).at(i, j),
    {
        let pixel = RGB(
            quantize_samples(color.0, samples),
            quantize_samples(color.1, samples),
            quantize_samples(color.2, samples),
        );
        self.put(row, column, pixel);
    }

    /// The image as plain text: the header, then each row on a line.
    pub fn encode(&self) -> (out: Vec<u8>)
        ensures
            out@ == self.text(),
    {
        let mut out: Vec<u8> = Vec::new();
        out.push(80);
        out.push(51);
        out.push(10);
        push_decimal(&mut out, self.width);
        out.push(32);
        push_decimal(&mut out, self.height);
        out.push(10);
        out.push(50);
        out.push(53);
        out.push(53);
        out.push(10);
        assert(out@ =~= header_text(self.width, self.height));
        let mut i: usize = 0;
        while i < self.pixels.len()
            invariant
                i <= self.pixels@.len(),
                out@ == header_text(self.width, self.height) + rows_text(self.rows(), i as nat),
            decreases self.pixels@.len() - i,
        {
            let ghost before = out@;
            let row = &self.pixels[i];
            let mut j: usize = 0;
            while j < row.len()
                invariant
                    j <= row@.len(),
                    out@ == before + pixels_text(row@, j as nat),
                decreases row@.len() - j,
            {
                push_pixel(&mut out, row[j]);
                j = j + 1;
                assert(out@ =~= before + pixels_text(row@, j as nat));
            }
            out.push(10);
            i = i + 1;
            assert(self.rows()[i - 1] == row@);
            assert(out@ =~= header_text(self.width, self.height) + rows_text(
                self.rows(),
                i as nat,
            ));
        }
        out
    }
}

} // verus!
