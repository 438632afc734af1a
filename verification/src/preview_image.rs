//! The preview pictures of the header.

use crate::raster::{resize_rgba, RgbaImage, MAX_SCALED_SIZE};
use image::imageops::FilterType;
use crate::serde::endian::{be16, be16_at};
use crate::serde::serializer::holds;
use crate::serde::{Deserializer, Serializer};
use vstd::prelude::*;

verus! {

/// A picture of `WIDTH` by `HEIGHT` pixels, row by row. A pixel is 16 bits
/// `rrrrrggggggbbbbb`: five bits of red, six of green, five of blue.
#[derive(Debug)]
pub struct PreviewImage<const WIDTH: usize, const HEIGHT: usize> {
    data: Vec<u16>,
}

/// The pixel made of the three channels. Bits of a channel that do not fit
/// into its place are lost or spill into the next channel.
pub open spec fn pack_rgb565(red: u16, green: u16, blue: u16) -> u16 {
    (red << 11) | (green << 5) | blue
}

/// The three channels of a pixel.
pub open spec fn unpack_rgb565(pixel: u16) -> (u16, u16, u16) {
    ((pixel >> 11) & 0x1F, (pixel >> 5) & 0x3F, pixel & 0x1F)
}

/// Channels that fit into their places come back from the pixel unchanged.
pub proof fn lemma_rgb565_round_trip(red: u16, green: u16, blue: u16)
    requires
        red < 32,
        green < 64,
        blue < 32,
    ensures
        unpack_rgb565(pack_rgb565(red, green, blue)) == (red, green, blue),
{
    let p = pack_rgb565(red, green, blue);
    assert((p >> 11) & 0x1F == red && (p >> 5) & 0x3F == green && p & 0x1F == blue)
        by (bit_vector)
        requires
            red < 32,
            green < 64,
            blue < 32,
            p == (red << 11) | (green << 5) | blue,
    ;
}

/// The pixel for a colour of three bytes: the top five bits of red, the top
/// six of green and the top five of blue.
pub open spec fn rgb565_of(red: u8, green: u8, blue: u8) -> u16 {
    pack_rgb565((red as u16) >> 3, (green as u16) >> 2, (blue as u16) >> 3)
}

/// The first `count` pixels of a buffer of four bytes per pixel (red, green,
/// blue, alpha), as 16-bit pixels. Alpha is dropped.
pub open spec fn rgb565_pixels(samples: Seq<u8>, count: nat) -> Seq<u16> {
    Seq::new(
        count,
        |i: int| rgb565_of(samples[4 * i], samples[4 * i + 1], samples[4 * i + 2]),
    )
}

/// The pixels as they stand in a file: two bytes each, the high byte first.
pub open spec fn pixel_bytes(pixels: Seq<u16>) -> Seq<u8> {
    Seq::new(
        2 * pixels.len(),
        |i: int|
            if i % 2 == 0 {
                (pixels[i / 2] / 0x100) as u8
            } else {
                (pixels[i / 2] % 0x100) as u8
            },
    )
}

/// The `count` pixels that stand in `s` from `at` on.
pub open spec fn pixels_at(s: Seq<u8>, at: int, count: nat) -> Seq<u16> {
    Seq::new(count, |i: int| be16_at(s, at + 2 * i))
}

/// Writing one more pixel appends its two bytes.
proof fn lemma_pixel_bytes_push(pixels: Seq<u16>, pixel: u16)
    ensures
        pixel_bytes(pixels.push(pixel)) == pixel_bytes(pixels) + be16(pixel),
{
    assert(pixel_bytes(pixels.push(pixel)) =~= pixel_bytes(pixels) + be16(pixel));
}

/// Pixels that were written are read back unchanged, whatever stands
/// around them.
pub proof fn lemma_pixel_bytes_round_trip(pixels: Seq<u16>, before: Seq<u8>, after: Seq<u8>)
    ensures
        pixel_bytes(pixels).len() == 2 * pixels.len(),
        pixels_at(before + pixel_bytes(pixels) + after, before.len() as int, pixels.len())
            == pixels,
{
    let s = before + pixel_bytes(pixels) + after;
    let at = before.len() as int;
    assert forall|i: int| 0 <= i < pixels.len() implies be16_at(s, at + 2 * i) == pixels[i] by {
        assert(s[at + 2 * i] == pixel_bytes(pixels)[2 * i]);
        assert(s[at + 2 * i + 1] == pixel_bytes(pixels)[2 * i + 1]);
    }
    assert(pixels_at(s, at, pixels.len()) =~= pixels);
}

impl<const WIDTH: usize, const HEIGHT: usize> View for PreviewImage<WIDTH, HEIGHT> {
    type V = Seq<u16>;

    /// The pixels, row by row.
    closed spec fn view(&self) -> Seq<u16> {
        self.data@
    }
}

impl<const WIDTH: usize, const HEIGHT: usize> PreviewImage<WIDTH, HEIGHT> {
    #[verifier::type_invariant]
    spec fn sized(self) -> bool {
        self.data@.len() == WIDTH * HEIGHT
    }

    /// The picture has `WIDTH * HEIGHT` pixels. Every picture that this
    /// library hands out has.
    pub open spec fn wf(&self) -> bool {
        self@.len() == WIDTH * HEIGHT
    }

    /// A picture of black pixels.
    pub fn empty() -> (image: Self)
        requires
            WIDTH * HEIGHT <= usize::MAX,
        ensures
            image.wf(),
            image@ == Seq::new((WIDTH * HEIGHT) as nat, |i: int| 0u16),
    {
        let data: Vec<u16> = vec![0u16; WIDTH * HEIGHT];
        assert(data@ =~= Seq::new((WIDTH * HEIGHT) as nat, |i: int| 0u16));
        Self { data }
    }

    /// The preview of a picture of the same size.
    pub fn from_image(image: &RgbaImage) -> (preview: Self)
        requires
            image.columns() == WIDTH,
            image.rows() == HEIGHT,
        ensures
            preview.wf(),
            preview@ == rgb565_pixels(image.raw(), (WIDTH * HEIGHT) as nat),
    {
        let total: usize = image.as_raw().len();
        assert(4 * (WIDTH * HEIGHT) <= total);
        let count: usize = WIDTH * HEIGHT;
        let mut data: Vec<u16> = vec![0u16; count];
        let mut i: usize = 0;
        while i < count
            invariant
                i <= count,
                count == WIDTH * HEIGHT,
                data@.len() == count,
                image.columns() == WIDTH,
                image.rows() == HEIGHT,
                image.wf(),
                forall|j: int|
                    0 <= j < i ==> data@[j] == rgb565_of(
                        image.raw()[4 * j],
                        image.raw()[4 * j + 1],
                        image.raw()[4 * j + 2],
                    ),
            decreases count - i,
        {
            let x: usize = i % WIDTH;
            let y: usize = i / WIDTH;
            proof {
                vstd::arithmetic::div_mod::lemma_fundamental_div_mod(i as int, WIDTH as int);
                assert(y < HEIGHT) by (nonlinear_arith)
                    requires
                        i < WIDTH * HEIGHT,
                        i == WIDTH * y + x,
                        0 <= x,
                        0 <= y,
                        0 < WIDTH,
                ;
                assert(WIDTH * y == y * WIDTH) by (nonlinear_arith);
            }
            let color: [u8; 4] = image.get_pixel(x as u32, y as u32);
            let red: u16 = (color[0] as u16) >> 3;
            let green: u16 = (color[1] as u16) >> 2;
            let blue: u16 = (color[2] as u16) >> 3;
            proof {
                let px = image.pixel(x as int, y as int);
                assert(px[0] == image.raw()[4 * i]);
                assert(px[1] == image.raw()[4 * i + 1]);
                assert(px[2] == image.raw()[4 * i + 2]);
            }
            data[i] = (red << 11) | (green << 5) | blue;
            i += 1;
        }
        assert(data@ =~= rgb565_pixels(image.raw(), (WIDTH * HEIGHT) as nat));
        Self { data }
    }

    /// The preview of a picture of another size, which is first brought to
    /// the size of the preview with the given filter. The result is the
    /// preview of some picture of that size; which one is up to the filter.
    /// Both pictures must be smaller than [`MAX_SCALED_SIZE`] in each
    /// direction.
    pub fn from_image_scaled(image: &RgbaImage, filter: FilterType) -> (preview: Self)
        requires
            image.columns() < MAX_SCALED_SIZE,
            image.rows() < MAX_SCALED_SIZE,
            WIDTH < MAX_SCALED_SIZE,
            HEIGHT < MAX_SCALED_SIZE,
            16 * (image.columns() * HEIGHT) <= isize::MAX,
            16 * (WIDTH * HEIGHT) <= isize::MAX,
        ensures
            preview.wf(),
            exists|samples: Seq<u8>|
                samples.len() == 4 * (WIDTH * HEIGHT) && preview@ == #[trigger] rgb565_pixels(
                    samples,
                    (WIDTH * HEIGHT) as nat,
                ),
    {
        let scaled: RgbaImage = resize_rgba(image, WIDTH as u32, HEIGHT as u32, filter);
        Self::from_image(&scaled)
    }

    /// The pixels, row by row.
    pub fn inner_data(&self) -> (pixels: &[u16])
        ensures
            pixels@ == self@,
            self.wf(),
    {
        proof {
            use_type_invariant(self);
        }
        self.data.as_slice()
    }

    /// Writes the pixels, two bytes each.
    pub fn serializes<T: Serializer>(&self, serializer: &mut T)
        requires
            holds(
                old(serializer).capacity(),
                old(serializer).written().len() + 2 * (WIDTH * HEIGHT) as nat,
            ),
        ensures
            self.wf(),
            final(serializer).written() == old(serializer).written() + pixel_bytes(self@),
            final(serializer).capacity() == old(serializer).capacity(),
    {
        proof {
            use_type_invariant(self);
        }
        let ghost before = serializer.written();
        let ghost capacity = serializer.capacity();
        let count: usize = self.data.len();
        let mut i: usize = 0;
        assert(before + pixel_bytes(self@.take(0)) =~= before);
        while i < count
            invariant
                i <= count,
                count == self@.len(),
                count == WIDTH * HEIGHT,
                holds(capacity, before.len() + 2 * count as nat),
                serializer.written() == before + pixel_bytes(self@.take(i as int)),
                serializer.capacity() == capacity,
            decreases count - i,
        {
            let ghost seen = pixel_bytes(self@.take(i as int));
            assert(self@.take(i + 1) =~= self@.take(i as int).push(self@[i as int]));
            serializer.write_u16(self.data[i]);
            proof {
                lemma_pixel_bytes_push(self@.take(i as int), self@[i as int]);
                assert((before + seen) + be16(self@[i as int]) =~= before + (seen + be16(
                    self@[i as int],
                )));
            }
            i += 1;
        }
        assert(self@.take(i as int) =~= self@);
    }

    /// Reads the pixels, two bytes each.
    pub fn deserializes(deserializer: &mut Deserializer) -> (image: Self)
        requires
            old(deserializer).position() + 2 * (WIDTH * HEIGHT) <= old(deserializer).data().len(),
        ensures
            image.wf(),
            image@ == pixels_at(
                old(deserializer).data(),
                old(deserializer).position() as int,
                (WIDTH * HEIGHT) as nat,
            ),
            final(deserializer).position() == old(deserializer).position() + 2 * (WIDTH * HEIGHT),
            final(deserializer).data() == old(deserializer).data(),
    {
        let left: usize = deserializer.remaining();
        assert(2 * (WIDTH * HEIGHT) <= left);
        let mut out: Self = Self::empty();
        let count: usize = out.data.len();
        let ghost start = deserializer.position() as int;
        let ghost bytes = deserializer.data();
        let mut i: usize = 0;
        while i < count
            invariant
                i <= count,
                count == WIDTH * HEIGHT,
                out.data@.len() == count,
                deserializer.data() == bytes,
                deserializer.position() == start + 2 * i,
                start + 2 * count <= bytes.len(),
                forall|j: int| 0 <= j < i ==> out.data@[j] == be16_at(bytes, start + 2 * j),
            decreases count - i,
        {
            let pixel: u16 = deserializer.read_u16();
            out.data[i] = pixel;
            i += 1;
        }
        assert(out@ =~= pixels_at(bytes, start, count as nat));
        out
    }

    /// Sets the pixel in column `x` of row `y` to the given red, green and
    /// blue, which are meant to be below 32, 64 and 32.
    pub fn set_pixel(&mut self, x: usize, y: usize, color: (u16, u16, u16))
        requires
            y * WIDTH + x < WIDTH * HEIGHT,
            WIDTH * HEIGHT <= usize::MAX,
        ensures
            final(self).wf(),
            final(self)@ == old(self)@.update(
                y * WIDTH + x,
                pack_rgb565(color.0, color.1, color.2),
            ),
    {
        proof {
            use_type_invariant(&*self);
        }
        let at: usize = y * WIDTH + x;
        self.data[at] = (color.0 << 11) | (color.1 << 5) | color.2;
    }

    /// The red, green and blue of the pixel in column `x` of row `y`.
    pub fn get_pixel(&self, x: usize, y: usize) -> (color: (u16, u16, u16))
        requires
            y * WIDTH + x < WIDTH * HEIGHT,
            WIDTH * HEIGHT <= usize::MAX,
        ensures
            color == unpack_rgb565(self@[y * WIDTH + x]),
            color.0 < 32,
            color.1 < 64,
            color.2 < 32,
    {
        proof {
            use_type_invariant(self);
        }
        let pixel: u16 = self.data[y * WIDTH + x];
        let color: (u16, u16, u16) = ((pixel >> 11) & 0x1F, (pixel >> 5) & 0x3F, pixel & 0x1F);
        assert((pixel >> 11) & 0x1F < 32 && (pixel >> 5) & 0x3F < 64 && pixel & 0x1F < 32)
            by (bit_vector);
        color
    }
}

} // verus!
