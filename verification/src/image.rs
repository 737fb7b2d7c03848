//! Image buffers: what nodes exchange when they execute, and images with a
//! width and a height that the host keeps.

use vstd::prelude::*;

verus! {

/// An owned flat buffer of channel-interleaved samples, row by row. It
/// carries no width or height: that two buffers agree in shape is the
/// caller's business.
pub struct ImageData<S> {
    pub data: Vec<S>,
}

impl<S> View for ImageData<S> {
    type V = Seq<S>;

    open spec fn view(&self) -> Seq<S> {
        self.data@
    }
}

/// The four samples of one pixel.
pub struct Pixel<S> {
    pub r: S,
    pub g: S,
    pub b: S,
    pub a: S,
}

/// A buffer of four samples for each pixel, with its width and height.
pub struct Image<S> {
    data: ImageData<S>,
    width: u32,
    height: u32,
}

impl<S> Image<S> {
    #[verifier::type_invariant]
    spec fn inv(&self) -> bool {
        self.data@.len() == 4 * (self.width * self.height) <= usize::MAX
    }

    /// The samples, four for each pixel, row by row.
    pub closed spec fn samples(&self) -> Seq<S> {
        self.data@
    }

    /// The width in pixels.
    pub closed spec fn spec_width(&self) -> u32 {
        self.width
    }

    /// The height in pixels.
    pub closed spec fn spec_height(&self) -> u32 {
        self.height
    }

    /// The place of the pixel `(x, y)` among the pixels, counted row by row.
    pub open spec fn pixel_index(&self, x: int, y: int) -> int {
        self.spec_width() * y + x
    }

    /// Whether the pixel `(x, y)` has a place in the image. (A column past
    /// the width counts on into the next row.)
    pub open spec fn has_pixel(&self, x: int, y: int) -> bool {
        0 <= x && 0 <= y && self.pixel_index(x, y) < self.spec_width() * self.spec_height()
    }

    /// The pixel whose samples stand at the four places from `4 * index` on.
    pub open spec fn pixel(&self, index: int) -> Pixel<S> {
        Pixel {
            r: self.samples()[4 * index],
            g: self.samples()[4 * index + 1],
            b: self.samples()[4 * index + 2],
            a: self.samples()[4 * index + 3],
        }
    }

    /// The samples after the pixel at `index` was replaced by `pixel`.
    pub open spec fn with_pixel(samples: Seq<S>, index: int, pixel: Pixel<S>) -> Seq<S> {
        samples.update(4 * index, pixel.r).update(4 * index + 1, pixel.g).update(
            4 * index + 2,
            pixel.b,
        ).update(4 * index + 3, pixel.a)
    }

    /// An image of the given width and height over `data`, where `data`
    /// holds four samples for each pixel.
    pub fn new(data: ImageData<S>, width: u32, height: u32) -> (r: Option<Self>)
        ensures
            r.is_some() <==> data@.len() == 4 * (width * height),
            r matches Some(image) ==> image.samples() == data@ && image.spec_width() == width
                && image.spec_height() == height,
    {
        proof {
            assert(width * height <= 0xffff_ffff * 0xffff_ffff) by (nonlinear_arith)
                requires
                    0 <= width <= 0xffff_ffff,
                    0 <= height <= 0xffff_ffff,
            ;
        }
        let pixels: u64 = width as u64 * height as u64;
        let len: u64 = data.data.len() as u64;
        if len % 4 == 0 && len / 4 == pixels {
            Some(Image { data, width, height })
        } else {
            None
        }
    }

    /// The samples of the image.
    pub fn data(&self) -> (r: &ImageData<S>)
        ensures
            r@ == self.samples(),
            r@.len() == 4 * (self.spec_width() * self.spec_height()),
    {
        proof {
            use_type_invariant(self);
        }
        &self.data
    }

    /// The width in pixels.
    #[verifier::when_used_as_spec(spec_width)]
    pub fn width(&self) -> (r: u32)
        ensures
            r == self.spec_width(),
    {
        self.width
    }

    /// The height in pixels.
    #[verifier::when_used_as_spec(spec_height)]
    pub fn height(&self) -> (r: u32)
        ensures
            r == self.spec_height(),
    {
        self.height
    }

    /// The place in the buffer of the first sample of the pixel `(x, y)`.
    fn offset(&self, x: usize, y: usize) -> (r: usize)
        requires
            self.has_pixel(x as int, y as int),
        ensures
            r == 4 * self.pixel_index(x as int, y as int),
            r + 3 < self.samples().len(),
    {
        proof {
            use_type_invariant(self);
            assert(0 <= self.width * y) by (nonlinear_arith)
                requires
                    0 <= self.width,
                    0 <= y,
            ;
        }
        (self.width as usize * y + x) * 4
    }

}

impl<S: Copy> Image<S> {
    /// The pixel `(x, y)`.
    pub fn pixel_at(&self, x: usize, y: usize) -> (r: Pixel<S>)
        requires
            self.has_pixel(x as int, y as int),
        ensures
            r == self.pixel(self.pixel_index(x as int, y as int)),
    {
        let at = self.offset(x, y);
        Pixel {
            r: self.data.data[at],
            g: self.data.data[at + 1],
            b: self.data.data[at + 2],
            a: self.data.data[at + 3],
        }
    }

    /// Replaces the pixel `(x, y)` by `pixel`.
    pub fn set_pixel(&mut self, x: usize, y: usize, pixel: Pixel<S>)
        requires
            old(self).has_pixel(x as int, y as int),
        ensures
            final(self).samples() == Self::with_pixel(
                old(self).samples(),
                old(self).pixel_index(x as int, y as int),
                pixel,
            ),
            final(self).spec_width() == old(self).spec_width(),
            final(self).spec_height() == old(self).spec_height(),
    {
        proof {
            use_type_invariant(&*self);
        }
        let at = self.offset(x, y);
        self.data.data[at] = pixel.r;
        self.data.data[at + 1] = pixel.g;
        self.data.data[at + 2] = pixel.b;
        self.data.data[at + 3] = pixel.a;
    }

    /// Replaces the pixel `(x, y)` by the four samples.
    pub fn set_rgba(&mut self, x: usize, y: usize, r: S, g: S, b: S, a: S)
        requires
            old(self).has_pixel(x as int, y as int),
        ensures
            final(self).samples() == Self::with_pixel(
                old(self).samples(),
                old(self).pixel_index(x as int, y as int),
                Pixel { r, g, b, a },
            ),
            final(self).spec_width() == old(self).spec_width(),
            final(self).spec_height() == old(self).spec_height(),
    {
        self.set_pixel(x, y, Pixel { r, g, b, a });
    }
}

} // verus!
