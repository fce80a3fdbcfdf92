//! The output pixel grid.
//!
//! The grid is an image buffer of the `image` crate, so that a finished
//! merge can be encoded without copying. Verus does not look inside the
//! buffer: what the buffer's methods do is stated here, on the word of the
//! crate's source, and the rest of the library is proved from that.

use vstd::prelude::*;

verus! {

/// One output pixel: three 16-bit channel values.
#[derive(Clone, Copy, Debug, PartialEq, Eq, Structural)]
pub struct Rgb16 {
    pub red: u16,
    pub green: u16,
    pub blue: u16,
}

/// A dense grid of RGB pixels with 16 bits per channel.
///
/// Holds an `image::ImageBuffer<image::Rgb<u16>, Vec<u16>>`. The buffer's
/// type cannot be declared to Verus, because its pixel parameter is bound by
/// a trait of the `image` crate; so the whole struct is opaque to Verus, and
/// [`grid_size`] and [`grid_pixels`] name what it holds.
#[verifier::external_body]
#[derive(Debug)]
pub struct PixelGrid {
    buffer: image::ImageBuffer<image::Rgb<u16>, Vec<u16>>,
}

/// The pixels of the grid's image buffer, by column `x` and row `y`: what
/// `ImageBuffer::get_pixel(x, y)` gives, for every coordinate of the image.
pub uninterp spec fn grid_pixels(grid: PixelGrid) -> Map<(int, int), Rgb16>;

/// Width and height of the grid's image buffer: what
/// `ImageBuffer::dimensions` gives.
pub uninterp spec fn grid_size(grid: PixelGrid) -> (nat, nat);

/// The mathematical content of a pixel grid.
pub struct GridModel {
    /// Number of columns.
    pub width: nat,
    /// Number of rows.
    pub height: nat,
    /// The pixel at each (column, row).
    pub pixels: Map<(int, int), Rgb16>,
}

impl GridModel {
    /// Whether (`x`, `y`) is a coordinate of the grid.
    pub open spec fn contains(self, x: int, y: int) -> bool {
        0 <= x < self.width && 0 <= y < self.height
    }

    /// The pixel at column `x` and row `y`.
    pub open spec fn pixel(self, x: int, y: int) -> Rgb16
        recommends
            self.contains(x, y),
    {
        self.pixels[(x, y)]
    }

    /// The grid of the given size whose pixels are all black.
    pub open spec fn blank(width: nat, height: nat) -> GridModel {
        GridModel {
            width,
            height,
            pixels: Map::new(
                |at: (int, int)| 0 <= at.0 < width && 0 <= at.1 < height,
                |at: (int, int)| Rgb16 { red: 0, green: 0, blue: 0 },
            ),
        }
    }

    /// The grid with the pixel at (`x`, `y`) replaced.
    pub open spec fn with_pixel(self, x: int, y: int, pixel: Rgb16) -> GridModel {
        GridModel { pixels: self.pixels.insert((x, y), pixel), ..self }
    }

    /// The grid's channel values in storage order: row after row, pixel
    /// after pixel, red before green before blue.
    pub open spec fn samples(self) -> Seq<u16> {
        Seq::new(
            3 * self.width * self.height,
            |i: int|
                {
                    let pixel = self.pixel((i / 3) % (self.width as int), (i / 3) / (self.width as int));
                    if i % 3 == 0 {
                        pixel.red
                    } else if i % 3 == 1 {
                        pixel.green
                    } else {
                        pixel.blue
                    }
                },
        )
    }
}

/// Whether a grid of this size can be allocated: its channel values, two
/// bytes each, must not take more than `isize::MAX` bytes.
pub open spec fn grid_fits(width: nat, height: nat) -> bool {
    width * height * 6 <= isize::MAX
}

impl View for PixelGrid {
    type V = GridModel;

    open spec fn view(&self) -> GridModel {
        GridModel {
            width: grid_size(*self).0,
            height: grid_size(*self).1,
            pixels: grid_pixels(*self),
        }
    }
}

/// `ImageBuffer::new`: an image of the given size, all of whose channel
/// values are zero. The call panics where the channel values do not fit a
/// vector, which `requires` rules out.
#[verifier::external_body]
fn buffer_new(width: u32, height: u32) -> (grid: PixelGrid)
    requires
        grid_fits(width as nat, height as nat),
    ensures
        grid_size(grid) == (width as nat, height as nat),
        grid_pixels(grid) == GridModel::blank(width as nat, height as nat).pixels,
{
    PixelGrid { buffer: image::ImageBuffer::new(width, height) }
}

/// `ImageBuffer::dimensions`: width and height of the image.
#[verifier::external_body]
fn buffer_dimensions(grid: &PixelGrid) -> (size: (u32, u32))
    ensures
        size.0 == grid_size(*grid).0,
        size.1 == grid_size(*grid).1,
{
    grid.buffer.dimensions()
}

/// `ImageBuffer::get_pixel`: the pixel at (`x`, `y`). The call panics
/// outside the image, which `requires` rules out.
#[verifier::external_body]
fn buffer_get_pixel(grid: &PixelGrid, x: u32, y: u32) -> (pixel: Rgb16)
    requires
        x < grid_size(*grid).0,
        y < grid_size(*grid).1,
    ensures
        pixel == grid_pixels(*grid)[(x as int, y as int)],
{
    let stored: &image::Rgb<u16> = grid.buffer.get_pixel(x, y);
    Rgb16 { red: stored.0[0], green: stored.0[1], blue: stored.0[2] }
}

/// `ImageBuffer::put_pixel`: replaces the pixel at (`x`, `y`) and leaves
/// every other pixel and the size as they were. The call panics outside the
/// image, which `requires` rules out.
#[verifier::external_body]
fn buffer_put_pixel(grid: &mut PixelGrid, x: u32, y: u32, pixel: Rgb16)
    requires
        x < grid_size(*old(grid)).0,
        y < grid_size(*old(grid)).1,
    ensures
        grid_size(*final(grid)) == grid_size(*old(grid)),
        grid_pixels(*final(grid)) == grid_pixels(*old(grid)).insert((x as int, y as int), pixel),
{
    grid.buffer.put_pixel(x, y, image::Rgb([pixel.red, pixel.green, pixel.blue]));
}

/// `ImageBuffer::into_raw`: the vector that holds the image, which is its
/// channel values in storage order.
#[verifier::external_body]
fn buffer_into_raw(grid: PixelGrid) -> (samples: Vec<u16>)
    ensures
        samples@ == (GridModel {
            width: grid_size(grid).0,
            height: grid_size(grid).1,
            pixels: grid_pixels(grid),
        }).samples(),
{
    grid.buffer.into_raw()
}

/// Whether a grid of this size can be allocated.
pub fn fits(width: u32, height: u32) -> (fits: bool)
    ensures
        fits == grid_fits(width as nat, height as nat),
{
    assert(0 <= width as int * height as int <= 0xffff_ffff * 0xffff_ffff) by (nonlinear_arith)
        requires
            0 <= width <= 0xffff_ffff,
            0 <= height <= 0xffff_ffff,
    ;
    let bytes: u128 = width as u128 * height as u128 * 6;
    bytes <= isize::MAX as u128
}

impl PixelGrid {
    /// A black grid of the given size, which must be one that can be
    /// allocated: [`fits`] tells.
    pub fn new(width: u32, height: u32) -> (grid: PixelGrid)
        requires
            grid_fits(width as nat, height as nat),
        ensures
            grid@ == GridModel::blank(width as nat, height as nat),
    {
        buffer_new(width, height)
    }

    /// Number of columns.
    pub fn width(&self) -> (width: u32)
        ensures
            width == self@.width,
    {
        buffer_dimensions(self).0
    }

    /// Number of rows.
    pub fn height(&self) -> (height: u32)
        ensures
            height == self@.height,
    {
        buffer_dimensions(self).1
    }

    /// The pixel at column `x` and row `y`, if the grid has that coordinate.
    pub fn pixel(&self, x: u32, y: u32) -> (pixel: Option<Rgb16>)
        ensures
            pixel == if self@.contains(x as int, y as int) {
                Some(self@.pixel(x as int, y as int))
            } else {
                None
            },
    {
        let size: (u32, u32) = buffer_dimensions(self);
        if x < size.0 && y < size.1 {
            Some(buffer_get_pixel(self, x, y))
        } else {
            None
        }
    }

    /// Replaces the pixel at column `x` and row `y`. Returns whether the grid
    /// has that coordinate; where it has not, nothing changes.
    pub fn set_pixel(&mut self, x: u32, y: u32, pixel: Rgb16) -> (done: bool)
        ensures
            done == old(self)@.contains(x as int, y as int),
            final(self)@ == if done {
                old(self)@.with_pixel(x as int, y as int, pixel)
            } else {
                old(self)@
            },
    {
        let size: (u32, u32) = buffer_dimensions(self);
        if x < size.0 && y < size.1 {
            buffer_put_pixel(self, x, y, pixel);
            true
        } else {
            false
        }
    }

    /// Gives up the grid for its channel values in storage order: row after
    /// row, pixel after pixel, red before green before blue.
    pub fn into_samples(self) -> (samples: Vec<u16>)
        ensures
            samples@ == self@.samples(),
    {
        buffer_into_raw(self)
    }
}

} // verus!
