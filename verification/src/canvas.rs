//! The pixel buffer that rendering fills.

use image::{Rgba, RgbaImage};
use vstd::prelude::*;

verus! {

/// Red, green, blue and alpha of one pixel.
pub type Rgba8 = (u8, u8, u8, u8);

/// The pixel of a place that nothing was drawn on.
pub open spec fn transparent() -> Rgba8 {
    (0u8, 0u8, 0u8, 0u8)
}

/// Whether the machine can hold an image of the given size: four samples
/// for each pixel, no more in all than a vector can hold.
pub open spec fn fits_in_memory(width: nat, height: nat) -> bool {
    4 * width <= usize::MAX && 4 * width * height <= isize::MAX
}

/// An RGBA image. The pixels are held by an `image::RgbaImage`, which the
/// verifier does not look into: what is known of them is what the functions
/// below say of [`image_rows`] and [`image_width`].
#[verifier::external_body]
pub struct Canvas {
    inner: RgbaImage,
}

/// The rows of an image, top to bottom, each row left to right.
pub uninterp spec fn image_rows(img: Canvas) -> Seq<Seq<Rgba8>>;

/// The width that an image was made with.
pub uninterp spec fn image_width(img: Canvas) -> nat;

/// `image::ImageBuffer::new`: an image of the given size whose samples are
/// all zero. It panics where four samples for each pixel are more than a
/// vector can hold, or more in one row than `usize` can count, which the
/// precondition leaves out.
#[verifier::external_body]
fn image_new(width: u32, height: u32) -> (img: Canvas)
    requires
        fits_in_memory(width as nat, height as nat),
    ensures
        image_width(img) == width,
        image_rows(img) == Seq::new(
            height as nat,
            |y: int| Seq::new(width as nat, |x: int| transparent()),
        ),
{
    Canvas { inner: RgbaImage::new(width, height) }
}

/// `image::ImageBuffer::put_pixel`: replaces the pixel at column `x` of row
/// `y` and nothing else. It panics outside the image, which the precondition
/// leaves out.
#[verifier::external_body]
fn image_put_pixel(img: &mut Canvas, x: u32, y: u32, px: Rgba8)
    requires
        y < image_rows(*old(img)).len(),
        x < image_width(*old(img)),
    ensures
        image_width(*final(img)) == image_width(*old(img)),
        image_rows(*final(img)) == image_rows(*old(img)).update(
            y as int,
            image_rows(*old(img))[y as int].update(x as int, px),
        ),
{
    img.inner.put_pixel(x, y, Rgba([px.0, px.1, px.2, px.3]))
}

/// `image::ImageBuffer::get_pixel`: the pixel at column `x` of row `y`. It
/// panics outside the image, which the precondition leaves out.
#[verifier::external_body]
fn image_get_pixel(img: &Canvas, x: u32, y: u32) -> (px: Rgba8)
    requires
        y < image_rows(*img).len(),
        x < image_width(*img),
    ensures
        px == image_rows(*img)[y as int][x as int],
{
    let p = img.inner.get_pixel(x, y);
    (p.0[0], p.0[1], p.0[2], p.0[3])
}

/// `image::ImageBuffer::width`.
#[verifier::external_body]
fn image_get_width(img: &Canvas) -> (w: u32)
    ensures
        w == image_width(*img),
{
    img.inner.width()
}

/// `image::ImageBuffer::height`: the number of rows.
#[verifier::external_body]
fn image_get_height(img: &Canvas) -> (h: u32)
    ensures
        h == image_rows(*img).len(),
{
    img.inner.height()
}

impl View for Canvas {
    type V = Seq<Seq<Rgba8>>;

    open spec fn view(&self) -> Seq<Seq<Rgba8>> {
        image_rows(*self)
    }
}

impl Canvas {
    /// The number of columns.
    pub open spec fn spec_width(&self) -> nat {
        image_width(*self)
    }

    /// The number of rows.
    pub open spec fn spec_height(&self) -> nat {
        self@.len()
    }

    /// Every row is as long as the image is wide.
    pub open spec fn wf(&self) -> bool {
        forall|y: int| 0 <= y < self@.len() ==> (#[trigger] self@[y]).len() == self.spec_width()
    }

    /// No pixel has been drawn.
    pub open spec fn is_blank(&self) -> bool {
        forall|y: int, x: int|
            0 <= y < self@.len() && 0 <= x < self.spec_width() ==> (#[trigger] self@[y][x])
                == transparent()
    }

    /// A transparent image of the given size.
    pub fn new(width: u32, height: u32) -> (img: Canvas)
        requires
            fits_in_memory(width as nat, height as nat),
        ensures
            img.wf(),
            img.spec_width() == width,
            img.spec_height() == height,
            img.is_blank(),
    {
        image_new(width, height)
    }

    /// The number of columns.
    pub fn width(&self) -> (w: u32)
        ensures
            w == self.spec_width(),
    {
        image_get_width(self)
    }

    /// The number of rows.
    pub fn height(&self) -> (h: u32)
        ensures
            h == self.spec_height(),
    {
        image_get_height(self)
    }

    /// The pixel at column `x` of row `y`, if the image has one.
    pub fn get_pixel(&self, x: u32, y: u32) -> (px: Option<Rgba8>)
        ensures
            px == if x < self.spec_width() && y < self.spec_height() {
                Some(self@[y as int][x as int])
            } else {
                None
            },
    {
        if x < image_get_width(self) && y < image_get_height(self) {
            Some(image_get_pixel(self, x, y))
        } else {
            None
        }
    }

    /// Sets the pixel at column `x` of row `y`.
    pub fn put_pixel(&mut self, x: u32, y: u32, px: Rgba8)
        requires
            old(self).wf(),
            x < old(self).spec_width(),
            y < old(self).spec_height(),
        ensures
            final(self).wf(),
            final(self).spec_width() == old(self).spec_width(),
            final(self).spec_height() == old(self).spec_height(),
            final(self)@[y as int] == old(self)@[y as int].update(x as int, px),
            forall|r: int| 0 <= r < old(self)@.len() && r != y ==> final(self)@[r] == old(self)@[r],
    {
        image_put_pixel(self, x, y, px);
    }
}

} // verus!
