//! The canvas: its dimensions, its palette and the image buffer that holds its
//! pixels.
use vstd::prelude::*;
use vstd::arithmetic::div_mod::lemma_fundamental_div_mod;
use crate::config::{canvas_error, check_canvas, fits_buffer, ConfigError};
use crate::raster::{black, painted, rgb_bytes, slot, Color};

verus! {

/// An image::RgbImage, 8 bits per channel, held whole and opaque: the contracts
/// below speak of it through its width and its pixels.
#[verifier::external_body]
pub struct PixelBuffer {
    img: image::RgbImage,
}

/// colorgrad::Gradient, the palette, carried through opaque: nothing here
/// reads it.
#[verifier::external_type_specification]
#[verifier::external_body]
pub struct ExGradient(colorgrad::Gradient);

/// The pixels that an RGB image holds, row by row from the top-left corner.
pub uninterp spec fn image_pixels(img: PixelBuffer) -> Seq<Color>;

/// The number of pixels in each row of an RGB image.
pub uninterp spec fn image_width(img: PixelBuffer) -> nat;

/// Relies on image::ImageBuffer::new: a `width` by `height` image with every
/// subpixel zero. It panics when the byte count overflows usize, and also when
/// three times the width alone does.
#[verifier::external_body]
fn new_image(width: u32, height: u32) -> (r: PixelBuffer)
    requires
        width > 0,
        height > 0,
        fits_buffer(width, height),
    ensures
        image_width(r) == width,
        image_pixels(r) == Seq::new(width as nat * height as nat, |i: int| black()),
{
    PixelBuffer { img: image::RgbImage::new(width, height) }
}

/// Relies on image::ImageBuffer::put_pixel: replaces the pixel at `(x, y)`. It
/// panics outside the image.
#[verifier::external_body]
fn put_pixel(buf: &mut PixelBuffer, x: u32, y: u32, c: Color)
    requires
        x < image_width(*old(buf)),
        slot(image_width(*old(buf)), x as nat, y as nat) < image_pixels(*old(buf)).len(),
    ensures
        image_width(*final(buf)) == image_width(*old(buf)),
        image_pixels(*final(buf)) == image_pixels(*old(buf)).update(
            slot(image_width(*old(buf)), x as nat, y as nat) as int,
            c,
        ),
{
    buf.img.put_pixel(x, y, image::Rgb([c.r, c.g, c.b]));
}

/// Relies on image::ImageBuffer::get_pixel: the pixel at `(x, y)`. It panics
/// outside the image.
#[verifier::external_body]
fn get_pixel(buf: &PixelBuffer, x: u32, y: u32) -> (r: Color)
    requires
        x < image_width(*buf),
        slot(image_width(*buf), x as nat, y as nat) < image_pixels(*buf).len(),
    ensures
        r == image_pixels(*buf)[slot(image_width(*buf), x as nat, y as nat) as int],
{
    let p = buf.img.get_pixel(x, y);
    Color { r: p.0[0], g: p.0[1], b: p.0[2] }
}

/// Relies on image::ImageBuffer::as_raw: the subpixels of the image, three per
/// pixel in pixel order, copied out.
#[verifier::external_body]
fn raw_bytes(buf: &PixelBuffer) -> (r: Vec<u8>)
    ensures
        r@ == rgb_bytes(image_pixels(*buf)),
{
    buf.img.as_raw().clone()
}

/// A grid of `width` by `height` pixels with the palette they are colored from.
pub struct Canvas {
    w: u32,
    h: u32,
    palette: colorgrad::Gradient,
    buffer: PixelBuffer,
}

impl Canvas {
    /// The dimensions are nonzero and the buffer holds one pixel per cell.
    pub closed spec fn wf(&self) -> bool {
        &&& self.w > 0
        &&& self.h > 0
        &&& fits_buffer(self.w, self.h)
        &&& image_width(self.buffer) == self.w
        &&& image_pixels(self.buffer).len() == self.w as nat * self.h as nat
    }

    pub closed spec fn spec_width(&self) -> u32 {
        self.w
    }

    pub closed spec fn spec_height(&self) -> u32 {
        self.h
    }

    pub closed spec fn spec_palette(&self) -> colorgrad::Gradient {
        self.palette
    }

    /// What a well-formed canvas offers its callers: nonzero dimensions whose
    /// buffer fits in memory, and one pixel per cell.
    pub proof fn lemma_wf_shape(&self)
        requires
            self.wf(),
        ensures
            self.spec_width() > 0,
            self.spec_height() > 0,
            fits_buffer(self.spec_width(), self.spec_height()),
            self.pixels().len() == self.spec_width() as nat * self.spec_height() as nat,
    {
    }

    /// The pixels, row by row from the top-left corner.
    pub closed spec fn pixels(&self) -> Seq<Color> {
        image_pixels(self.buffer)
    }

    /// A black canvas of `w` by `h` pixels, or the error that the dimensions
    /// give.
    pub fn new(w: u32, h: u32, palette: colorgrad::Gradient) -> (r: Result<Canvas, ConfigError>)
        ensures
            r is Ok <==> canvas_error(w, h) is None,
            r is Err ==> canvas_error(w, h) == Some(r->Err_0),
            r is Ok ==> {
                let c = r->Ok_0;
                &&& c.wf()
                &&& c.spec_width() == w
                &&& c.spec_height() == h
                &&& c.spec_palette() == palette
                &&& c.pixels() == Seq::new(w as nat * h as nat, |i: int| black())
            },
    {
        match check_canvas(w, h) {
            Err(e) => Err(e),
            Ok(()) => Ok(Canvas { w, h, palette, buffer: new_image(w, h) }),
        }
    }

    /// Whether a run of `len` colors fills whole rows of the canvas from row
    /// `first_row` on without passing its bottom edge.
    pub open spec fn band_fits(&self, first_row: u32, len: nat) -> bool {
        &&& len % (self.spec_width() as nat) == 0
        &&& first_row as nat * self.spec_width() as nat + len
            <= self.spec_width() as nat * self.spec_height() as nat
    }

    /// Writes `colors`, row by row, into the rows from `first_row` on. The
    /// other rows keep their pixels. Returns false, and writes nothing, when
    /// the colors do not fill whole rows inside the canvas.
    pub fn paint_rows(&mut self, first_row: u32, colors: &Vec<Color>) -> (r: bool)
        requires
            old(self).wf(),
        ensures
            final(self).wf(),
            final(self).spec_width() == old(self).spec_width(),
            final(self).spec_height() == old(self).spec_height(),
            final(self).spec_palette() == old(self).spec_palette(),
            r == old(self).band_fits(first_row, colors@.len()),
            r ==> final(self).pixels() == painted(
                old(self).pixels(),
                first_row as int * old(self).spec_width() as int,
                colors@,
            ),
            !r ==> final(self).pixels() == old(self).pixels(),
    {
        let w = self.w;
        let h = self.h;
        let n = colors.len();
        if n % (w as usize) != 0 {
            return false;
        }
        if first_row >= h {
            if n == 0 && first_row == h {
                proof {
                    assert(first_row as nat * w as nat == w as nat * h as nat) by (nonlinear_arith)
                        requires
                            first_row == h,
                    ;
                }
                return true;
            }
            proof {
                if n > 0 {
                    assert(n as nat >= w as nat) by (nonlinear_arith)
                        requires
                            n as nat % w as nat == 0,
                            n > 0,
                            w > 0,
                    ;
                }
                assert(first_row as nat * w as nat + n as nat > w as nat * h as nat)
                    by (nonlinear_arith)
                    requires
                        first_row >= h,
                        w > 0,
                        n > 0 ==> n as nat >= w as nat,
                        n == 0 ==> first_row > h,
                ;
            }
            return false;
        }
        proof {
            assert(first_row as nat * w as nat <= w as nat * h as nat) by (nonlinear_arith)
                requires
                    first_row < h,
            ;
        }
        let start: usize = first_row as usize * w as usize;
        let room: usize = w as usize * h as usize - start;
        if n > room {
            return false;
        }
        let ghost before = self.pixels();
        let mut i: usize = 0;
        while i < n
            invariant
                self.wf(),
                self.w == w,
                self.h == h,
                self.palette == old(self).palette,
                n == colors@.len(),
                start == first_row as nat * w as nat,
                start + n <= w as nat * h as nat,
                i <= n,
                n as nat % (w as nat) == 0,
                self.pixels() == Seq::new(
                    before.len(),
                    |j: int| if start <= j < start + i { colors@[j - start] } else { before[j] },
                ),
            decreases n - i,
        {
            let x: u32 = (i % (w as usize)) as u32;
            let row: usize = i / (w as usize);
            proof {
                lemma_fundamental_div_mod(i as int, w as int);
                assert(start + i < w as nat * h as nat);
                assert((first_row as nat + row as nat) * w as nat + x as nat == start + i)
                    by (nonlinear_arith)
                    requires
                        i as int == w as int * row as int + x as int,
                        start == first_row as nat * w as nat,
                ;
                assert((first_row as nat + row as nat) < h as nat) by (nonlinear_arith)
                    requires
                        ((first_row as nat + row as nat) * w as nat + x as nat) < w as nat * h as nat,
                ;
            }
            let y: u32 = first_row + row as u32;
            put_pixel(&mut self.buffer, x, y, colors[i]);
            i = i + 1;
            proof {
                assert(self.pixels() =~= Seq::new(
                    before.len(),
                    |j: int| if start <= j < start + i { colors@[j - start] } else { before[j] },
                ));
            }
        }
        assert(self.pixels() =~= painted(before, start as int, colors@));
        true
    }

    pub fn width(&self) -> (r: u32)
        ensures
            r == self.spec_width(),
    {
        self.w
    }

    pub fn height(&self) -> (r: u32)
        ensures
            r == self.spec_height(),
    {
        self.h
    }

    /// The palette the pixels are colored from.
    pub fn palette(&self) -> (r: &colorgrad::Gradient)
        ensures
            *r == self.spec_palette(),
    {
        &self.palette
    }

    /// The color of pixel `(x, y)`, counted from the top-left corner.
    pub fn pixel(&self, x: u32, y: u32) -> (r: Color)
        requires
            self.wf(),
            x < self.spec_width(),
            y < self.spec_height(),
        ensures
            r == self.pixels()[slot(self.spec_width() as nat, x as nat, y as nat) as int],
    {
        proof {
            assert((y as nat * self.w as nat + x as nat) < self.w as nat * self.h as nat)
                by (nonlinear_arith)
                requires
                    x < self.w,
                    y < self.h,
            ;
        }
        get_pixel(&self.buffer, x, y)
    }

    /// The bytes of the image: red, green and blue of each pixel, row by row
    /// from the top-left corner.
    pub fn to_rgb_bytes(&self) -> (r: Vec<u8>)
        requires
            self.wf(),
        ensures
            r@ == rgb_bytes(self.pixels()),
            r@.len() == 3 * self.spec_width() as nat * self.spec_height() as nat,
    {
        let r = raw_bytes(&self.buffer);
        proof {
            assert(3 * (self.w as nat * self.h as nat) == 3 * self.w as nat * self.h as nat)
                by (nonlinear_arith);
        }
        r
    }
}

} // verus!
