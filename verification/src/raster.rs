//! Plain pictures: what the library takes from an imaging program and
//! hands to one.

use image::imageops::FilterType;
use vstd::prelude::*;

verus! {

/// A grayscale picture: one byte per pixel, row by row. The buffer may be
/// longer than the picture; what lies behind the last pixel is not part of
/// it.
#[derive(Debug)]
pub struct GrayImage {
    width: u32,
    height: u32,
    data: Vec<u8>,
}

/// A colour picture: four bytes per pixel (red, green, blue, alpha), row by
/// row. The buffer may be longer than the picture.
#[derive(Debug)]
pub struct RgbaImage {
    width: u32,
    height: u32,
    data: Vec<u8>,
}

/// `image::imageops::FilterType`: how a picture is sampled when its size
/// changes. The library hands a value of it on and does not look into it.
#[verifier::external_type_specification]
#[verifier::external_body]
pub struct ExFilterType(image::imageops::FilterType);

/// A pixel of row `y` and column `x` of a picture of the given size lies
/// inside its rows.
pub proof fn lemma_pixel_index(x: int, y: int, width: int, height: int)
    requires
        0 <= x < width,
        0 <= y < height,
    ensures
        0 <= y * width + x < width * height,
{
    assert(y * width + x < width * height) by (nonlinear_arith)
        requires
            0 <= x < width,
            0 <= y < height,
    ;
    assert(0 <= y * width) by (nonlinear_arith)
        requires
            0 <= y,
            0 <= width,
    ;
}

/// The product of two 32-bit numbers fits into 64 bits.
pub proof fn lemma_area_fits(width: u32, height: u32)
    ensures
        width * height <= 0xFFFF_FFFF * 0xFFFF_FFFF,
        0 <= width * height,
{
    assert(width * height <= 0xFFFF_FFFF * 0xFFFF_FFFF && 0 <= width * height)
        by (nonlinear_arith)
        requires
            0 <= width <= 0xFFFF_FFFF,
            0 <= height <= 0xFFFF_FFFF,
    ;
}

impl GrayImage {
    #[verifier::type_invariant]
    spec fn fits(self) -> bool {
        self.width * self.height <= self.data@.len()
    }

    /// The number of columns.
    pub closed spec fn columns(&self) -> u32 {
        self.width
    }

    /// The number of rows.
    pub closed spec fn rows(&self) -> u32 {
        self.height
    }

    /// The whole buffer.
    pub closed spec fn raw(&self) -> Seq<u8> {
        self.data@
    }

    /// The buffer holds every pixel of the picture.
    pub open spec fn wf(&self) -> bool {
        self.columns() * self.rows() <= self.raw().len()
    }

    /// A picture of the given size over `buf`, or `None` where `buf` is too
    /// short for it.
    pub fn from_vec(width: u32, height: u32, buf: Vec<u8>) -> (r: Option<Self>)
        ensures
            r is Some <==> width * height <= buf@.len(),
            r matches Some(image) ==> image.columns() == width && image.rows() == height
                && image.raw() == buf@ && image.wf(),
    {
        proof {
            lemma_area_fits(width, height);
        }
        if width as u64 * height as u64 <= buf.len() as u64 {
            Some(Self { width, height, data: buf })
        } else {
            None
        }
    }

    /// The number of columns.
    pub fn width(&self) -> (w: u32)
        ensures
            w == self.columns(),
    {
        self.width
    }

    /// The number of rows.
    pub fn height(&self) -> (h: u32)
        ensures
            h == self.rows(),
    {
        self.height
    }

    /// The whole buffer.
    pub fn as_raw(&self) -> (raw: &Vec<u8>)
        ensures
            raw@ == self.raw(),
            self.wf(),
    {
        proof {
            use_type_invariant(self);
        }
        &self.data
    }

    /// The whole buffer.
    pub fn into_raw(self) -> (raw: Vec<u8>)
        ensures
            raw@ == self.raw(),
            self.wf(),
    {
        proof {
            use_type_invariant(&self);
        }
        self.data
    }
}

impl RgbaImage {
    #[verifier::type_invariant]
    spec fn fits(self) -> bool {
        4 * (self.width * self.height) <= self.data@.len()
    }

    /// The number of columns.
    pub closed spec fn columns(&self) -> u32 {
        self.width
    }

    /// The number of rows.
    pub closed spec fn rows(&self) -> u32 {
        self.height
    }

    /// The whole buffer.
    pub closed spec fn raw(&self) -> Seq<u8> {
        self.data@
    }

    /// The buffer holds every pixel of the picture.
    pub open spec fn wf(&self) -> bool {
        4 * (self.columns() * self.rows()) <= self.raw().len()
    }

    /// The four bytes of the pixel in column `x` of row `y`.
    pub open spec fn pixel(&self, x: int, y: int) -> Seq<u8> {
        self.raw().subrange(
            4 * (y * self.columns() + x),
            4 * (y * self.columns() + x) + 4,
        )
    }

    /// A picture of the given size over `buf`, or `None` where `buf` is too
    /// short for it.
    pub fn from_vec(width: u32, height: u32, buf: Vec<u8>) -> (r: Option<Self>)
        ensures
            r is Some <==> 4 * (width * height) <= buf@.len(),
            r matches Some(image) ==> image.columns() == width && image.rows() == height
                && image.raw() == buf@ && image.wf(),
    {
        proof {
            lemma_area_fits(width, height);
        }
        if width as u128 * height as u128 * 4 <= buf.len() as u128 {
            Some(Self { width, height, data: buf })
        } else {
            None
        }
    }

    /// The number of columns.
    pub fn width(&self) -> (w: u32)
        ensures
            w == self.columns(),
    {
        self.width
    }

    /// The number of rows.
    pub fn height(&self) -> (h: u32)
        ensures
            h == self.rows(),
    {
        self.height
    }

    /// The whole buffer.
    pub fn as_raw(&self) -> (raw: &Vec<u8>)
        ensures
            raw@ == self.raw(),
            self.wf(),
    {
        proof {
            use_type_invariant(self);
        }
        &self.data
    }

    /// The whole buffer.
    pub fn into_raw(self) -> (raw: Vec<u8>)
        ensures
            raw@ == self.raw(),
            self.wf(),
    {
        proof {
            use_type_invariant(&self);
        }
        self.data
    }

    /// The pixel in column `x` of row `y`.
    pub fn get_pixel(&self, x: u32, y: u32) -> (color: [u8; 4])
        requires
            x < self.columns(),
            y < self.rows(),
        ensures
            color@ == self.pixel(x as int, y as int),
    {
        proof {
            use_type_invariant(self);
            lemma_pixel_index(x as int, y as int, self.width as int, self.height as int);
        }
        let total: usize = self.data.len();
        assert(4 * (y * self.width + x) + 4 <= total);
        let row: usize = y as usize * self.width as usize;
        let at: usize = (row + x as usize) * 4;
        let color: [u8; 4] = [
            self.data[at],
            self.data[at + 1],
            self.data[at + 2],
            self.data[at + 3],
        ];
        assert(color@ =~= self.pixel(x as int, y as int));
        color
    }
}

/// The size below which a picture can be scaled, in each direction, before
/// and after: 2^22 pixels.
///
/// The scaling computes in single precision. Below this size a half pixel
/// is exact there, and the place in the old picture that a new pixel is
/// sampled around, as computed, lies inside the old picture. The old pixel
/// nearest to that place is then sampled at no more than half a pixel from
/// it, where every filter gives it a weight above 0.45, beside which the
/// negative weights that two of the filters give further out are small: the
/// sum of the weights, by which they are divided, is not zero.
pub const MAX_SCALED_SIZE: u32 = 0x40_0000;

/// `image::imageops::resize` on a four-channel picture of bytes: a picture
/// of the new size, sampled from `image` with the given filter. Of the
/// result only its size is claimed, and that its buffer is exactly as long
/// as its pixels take: the samples come out of floating-point arithmetic.
/// The sizes are held below [`MAX_SCALED_SIZE`], from which on the call
/// can fail on a sum of weights that is zero. The other two bounds keep the
/// buffers that the call allocates below the largest that a vector can
/// have.
#[verifier::external_body]
pub(crate) fn resize_rgba(
    image: &RgbaImage,
    new_width: u32,
    new_height: u32,
    filter: FilterType,
) -> (out: RgbaImage)
    requires
        image.columns() < MAX_SCALED_SIZE,
        image.rows() < MAX_SCALED_SIZE,
        new_width < MAX_SCALED_SIZE,
        new_height < MAX_SCALED_SIZE,
        16 * (image.columns() * new_height) <= isize::MAX,
        16 * (new_width * new_height) <= isize::MAX,
    ensures
        out.columns() == new_width,
        out.rows() == new_height,
        out.raw().len() == 4 * (new_width * new_height),
{
    let source =
        image::RgbaImage::from_raw(image.width, image.height, image.data.clone()).unwrap();
    let scaled = image::imageops::resize(&source, new_width, new_height, filter);
    RgbaImage { width: scaled.width(), height: scaled.height(), data: scaled.into_raw() }
}

} // verus!
