//! The image: a row-major grid of pixels.

use vstd::prelude::*;
use crate::color::Rgb;

verus! {

/// The mathematical model of an image: `height` rows of `width` pixels.
pub ghost struct Raster {
    pub width: int,
    pub height: int,
    pub rows: Seq<Seq<Rgb>>,
}

impl Raster {
    /// Whether the rows are as many and as long as the dimensions say.
    pub open spec fn wf(self) -> bool {
        &&& 0 <= self.width
        &&& 0 <= self.height
        &&& self.rows.len() == self.height
        &&& forall|y: int| 0 <= y < self.height ==> (#[trigger] self.rows[y]).len() == self.width
    }

    /// The pixel in column `x` of row `y`.
    pub open spec fn pixel(self, x: int, y: int) -> Rgb {
        self.rows[y][x]
    }

    /// Whether `(x, y)` is a place of the image.
    pub open spec fn holds(self, x: int, y: int) -> bool {
        0 <= x < self.width && 0 <= y < self.height
    }

    /// Whether the image has no pixels.
    pub open spec fn is_empty(self) -> bool {
        self.width == 0 || self.height == 0
    }

    /// The image of the given dimensions whose pixel at `(x, y)` is `f(x, y)`.
    pub open spec fn from_fn(width: int, height: int, f: spec_fn(int, int) -> Rgb) -> Raster {
        Raster {
            width,
            height,
            rows: Seq::new(height as nat, |y: int| Seq::new(width as nat, |x: int| f(x, y))),
        }
    }

    /// The image of the given dimensions whose rows stand one after the
    /// other in `pixels`.
    pub open spec fn from_row_major(width: int, height: int, pixels: Seq<Rgb>) -> Raster {
        Raster::from_fn(width, height, |x: int, y: int| pixels[y * width + x])
    }

    /// The pixels of the image, row after row.
    pub open spec fn row_major(self) -> Seq<Rgb> {
        Seq::new(
            (self.width * self.height) as nat,
            |p: int| self.rows[p / self.width][p % self.width],
        )
    }
}

/// Two images of the same dimensions that agree in every place are equal.
pub proof fn lemma_raster_equal(a: Raster, b: Raster)
    requires
        a.wf(),
        b.wf(),
        a.width == b.width,
        a.height == b.height,
        forall|x: int, y: int| a.holds(x, y) ==> a.pixel(x, y) == b.pixel(x, y),
    ensures
        a == b,
{
    assert forall|y: int| 0 <= y < a.height implies a.rows[y] == b.rows[y] by {
        assert forall|x: int| 0 <= x < a.width implies a.rows[y][x] == b.rows[y][x] by {
            assert(a.holds(x, y));
            assert(a.pixel(x, y) == b.pixel(x, y));
        }
        assert(a.rows[y] =~= b.rows[y]);
    }
    assert(a.rows =~= b.rows);
}

/// The place of a pixel in row-major order lies within the pixel count.
pub proof fn lemma_index_in_bounds(width: int, height: int, x: int, y: int)
    requires
        0 <= x < width,
        0 <= y < height,
    ensures
        0 <= y * width + x < width * height,
        (y * width + x) / width == y,
        (y * width + x) % width == x,
{
    assert(0 <= y * width && y * width + width <= height * width) by (nonlinear_arith)
        requires
            0 <= y < height,
            0 < width,
    ;
    assert(width * height == height * width) by (nonlinear_arith);
    assert((y * width + x) / width == y && (y * width + x) % width == x) by (nonlinear_arith)
        requires
            0 <= x < width,
            0 <= y,
    ;
}

/// Different places have different positions in row-major order.
pub proof fn lemma_index_injective(width: int, x1: int, y1: int, x2: int, y2: int)
    requires
        0 <= x1 < width,
        0 <= x2 < width,
        0 <= y1,
        0 <= y2,
        y1 * width + x1 == y2 * width + x2,
    ensures
        x1 == x2,
        y1 == y2,
{
    assert(y1 == y2 && x1 == x2) by (nonlinear_arith)
        requires
            0 <= x1 < width,
            0 <= x2 < width,
            0 <= y1,
            0 <= y2,
            y1 * width + x1 == y2 * width + x2,
    ;
}

/// An image built from pixels in row-major order is well formed, and holds
/// at every place the pixel of that position.
pub proof fn lemma_from_row_major(width: int, height: int, pixels: Seq<Rgb>)
    requires
        0 <= width,
        0 <= height,
    ensures
        Raster::from_row_major(width, height, pixels).wf(),
        Raster::from_row_major(width, height, pixels).width == width,
        Raster::from_row_major(width, height, pixels).height == height,
        forall|x: int, y: int|
            0 <= x < width && 0 <= y < height ==> #[trigger] Raster::from_row_major(
                width,
                height,
                pixels,
            ).pixel(x, y) == pixels[y * width + x],
{
}

/// The pixels that a row of bytes spells, three bytes to the pixel: red,
/// green, blue. Bytes that are left over spell nothing.
pub open spec fn pixels_of_bytes(bytes: Seq<u8>) -> Seq<Rgb> {
    Seq::new(
        (bytes.len() / 3) as nat,
        |i: int| Rgb { r: bytes[3 * i], g: bytes[3 * i + 1], b: bytes[3 * i + 2] },
    )
}

/// The channels of the pixels, three bytes to the pixel: red, green, blue.
pub open spec fn bytes_of_pixels(pixels: Seq<Rgb>) -> Seq<u8> {
    Seq::new(
        (3 * pixels.len()) as nat,
        |j: int|
            if j % 3 == 0 {
                pixels[j / 3].r
            } else if j % 3 == 1 {
                pixels[j / 3].g
            } else {
                pixels[j / 3].b
            },
    )
}

/// Bytes written from pixels spell those pixels again.
pub proof fn lemma_bytes_round_trip(pixels: Seq<Rgb>)
    ensures
        pixels_of_bytes(bytes_of_pixels(pixels)) == pixels,
{
    assert(pixels_of_bytes(bytes_of_pixels(pixels)) =~= pixels);
}

/// An image in memory. Its pixels stand row after row in one buffer, which
/// holds exactly `width * height` of them.
#[derive(Debug)]
pub struct Image {
    width: u32,
    height: u32,
    pixels: Vec<Rgb>,
}

impl View for Image {
    type V = Raster;

    closed spec fn view(&self) -> Raster {
        Raster::from_row_major(self.width as int, self.height as int, self.pixels@)
    }
}

impl Image {
    #[verifier::type_invariant]
    spec fn inv(self) -> bool {
        &&& self.pixels@.len() == self.width * self.height
        &&& self.width * self.height <= usize::MAX
    }

    /// A black image of the given dimensions, or `None` where the number of
    /// its pixels is more than a buffer can hold.
    pub fn new(width: u32, height: u32) -> (r: Option<Image>)
        ensures
            width * height <= usize::MAX <==> r is Some,
            r matches Some(img) ==> img@ == Raster::from_fn(
                width as int,
                height as int,
                |x: int, y: int| Rgb { r: 0, g: 0, b: 0 },
            ),
    {
        let count: u64 = match (width as u64).checked_mul(height as u64) {
            Some(count) => count,
            None => {
                assert(width * height <= 0xffff_ffff * 0xffff_ffff) by (nonlinear_arith)
                    requires
                        0 <= width <= 0xffff_ffff,
                        0 <= height <= 0xffff_ffff,
                ;
                return None;
            },
        };
        if count > usize::MAX as u64 {
            return None;
        }
        let mut pixels: Vec<Rgb> = Vec::new();
        let mut i: u64 = 0;
        while i < count
            invariant
                i <= count,
                count <= usize::MAX,
                pixels@.len() == i,
                forall|t: int| 0 <= t < i ==> pixels@[t] == (Rgb { r: 0, g: 0, b: 0 }),
            decreases count - i,
        {
            pixels.push(Rgb { r: 0, g: 0, b: 0 });
            i = i + 1;
        }
        let img = Image { width, height, pixels };
        proof {
            let black = Raster::from_fn(
                width as int,
                height as int,
                |x: int, y: int| Rgb { r: 0, g: 0, b: 0 },
            );
            lemma_from_row_major(width as int, height as int, img.pixels@);
            assert forall|x: int, y: int| img@.holds(x, y) implies img@.pixel(x, y) == black.pixel(
                x,
                y,
            ) by {
                lemma_index_in_bounds(width as int, height as int, x, y);
            }
            lemma_raster_equal(img@, black);
        }
        Some(img)
    }

    /// The image of the given dimensions whose rows stand one after the
    /// other in `pixels`, or `None` where `pixels` does not hold exactly
    /// `width * height` pixels.
    pub fn from_pixels(width: u32, height: u32, pixels: Vec<Rgb>) -> (r: Option<Image>)
        ensures
            pixels@.len() == width * height <==> r is Some,
            r matches Some(img) ==> img@ == Raster::from_row_major(
                width as int,
                height as int,
                pixels@,
            ),
    {
        assert(width * height <= 0xffff_ffff * 0xffff_ffff) by (nonlinear_arith)
            requires
                0 <= width <= 0xffff_ffff,
                0 <= height <= 0xffff_ffff,
        ;
        match (width as u64).checked_mul(height as u64) {
            Some(count) => {
                if pixels.len() as u64 == count {
                    Some(Image { width, height, pixels })
                } else {
                    None
                }
            },
            None => None,
        }
    }

    /// The image of the given dimensions whose rows stand one after the
    /// other in `pixels`.
    pub(crate) fn from_buffer(width: u32, height: u32, pixels: Vec<Rgb>) -> (img: Image)
        requires
            pixels@.len() == width * height,
            width * height <= usize::MAX,
        ensures
            img@ == Raster::from_row_major(width as int, height as int, pixels@),
    {
        Image { width, height, pixels }
    }

    pub fn width(&self) -> (w: u32)
        ensures
            w == self@.width,
    {
        self.width
    }

    pub fn height(&self) -> (h: u32)
        ensures
            h == self@.height,
    {
        self.height
    }

    /// Width and height.
    pub fn dimensions(&self) -> (d: (u32, u32))
        ensures
            d.0 == self@.width,
            d.1 == self@.height,
            self@.wf(),
            self@.width * self@.height <= usize::MAX,
    {
        proof {
            use_type_invariant(self);
            lemma_from_row_major(self.width as int, self.height as int, self.pixels@);
        }
        (self.width, self.height)
    }

    /// Whether the image has no pixels.
    pub fn is_empty(&self) -> (e: bool)
        ensures
            e == self@.is_empty(),
    {
        self.width == 0 || self.height == 0
    }

    /// The position of the place `(x, y)` in the buffer.
    fn index_of(&self, x: u32, y: u32) -> (i: usize)
        requires
            x < self.width,
            y < self.height,
        ensures
            i == y * self.width + x,
            i < self.pixels@.len(),
            self.pixels@[i as int] == self@.pixel(x as int, y as int),
    {
        proof {
            use_type_invariant(self);
            lemma_index_in_bounds(self.width as int, self.height as int, x as int, y as int);
            lemma_from_row_major(self.width as int, self.height as int, self.pixels@);
            assert(y * self.width <= 0xffff_ffff * 0xffff_ffff) by (nonlinear_arith)
                requires
                    0 <= y <= 0xffff_ffff,
                    0 <= self.width <= 0xffff_ffff,
            ;
        }
        ((y as u64) * (self.width as u64) + (x as u64)) as usize
    }

    /// The pixel in column `x` of row `y`.
    pub fn get_pixel(&self, x: u32, y: u32) -> (p: Rgb)
        requires
            self@.holds(x as int, y as int),
        ensures
            p == self@.pixel(x as int, y as int),
    {
        let i: usize = self.index_of(x, y);
        self.pixels[i]
    }

    /// The pixel in column `x` of row `y`, or `None` where the image has no
    /// such place.
    pub fn get_pixel_checked(&self, x: u32, y: u32) -> (p: Option<Rgb>)
        ensures
            p == if self@.holds(x as int, y as int) {
                Some(self@.pixel(x as int, y as int))
            } else {
                None
            },
    {
        if x < self.width && y < self.height {
            Some(self.get_pixel(x, y))
        } else {
            None
        }
    }

    /// The pixels of the image, row after row.
    pub fn to_pixels(&self) -> (pixels: Vec<Rgb>)
        ensures
            pixels@ == self@.row_major(),
            self@ == Raster::from_row_major(self@.width, self@.height, pixels@),
    {
        let mut pixels: Vec<Rgb> = Vec::new();
        let n: usize = self.pixels.len();
        let mut i: usize = 0;
        while i < n
            invariant
                i <= n,
                n == self.pixels@.len(),
                pixels@ == self.pixels@.subrange(0, i as int),
            decreases n - i,
        {
            pixels.push(self.pixels[i]);
            assert(pixels@ =~= self.pixels@.subrange(0, i + 1));
            i = i + 1;
        }
        proof {
            use_type_invariant(self);
            assert(pixels@ =~= self.pixels@);
            self.lemma_row_major();
        }
        pixels
    }

    /// The image of the given dimensions whose pixels stand row after row
    /// in `bytes`, three bytes to the pixel: red, green, blue. `None` where
    /// `bytes` does not hold exactly `3 * width * height` bytes.
    pub fn from_raw(width: u32, height: u32, bytes: &[u8]) -> (r: Option<Image>)
        ensures
            bytes@.len() == 3 * (width * height) <==> r is Some,
            r matches Some(img) ==> img@ == Raster::from_row_major(
                width as int,
                height as int,
                pixels_of_bytes(bytes@),
            ),
    {
        assert(width * height <= 0xffff_ffff * 0xffff_ffff) by (nonlinear_arith)
            requires
                0 <= width <= 0xffff_ffff,
                0 <= height <= 0xffff_ffff,
        ;
        let count: u64 = match (width as u64).checked_mul(height as u64) {
            Some(count) => count,
            None => {
                return None;
            },
        };
        let n: usize = bytes.len();
        if n % 3 != 0 || (n / 3) as u64 != count {
            return None;
        }
        let mut pixels: Vec<Rgb> = Vec::new();
        let mut i: usize = 0;
        while i < n / 3
            invariant
                i <= n / 3,
                n == bytes@.len(),
                n % 3 == 0,
                pixels@.len() == i,
                forall|j: int| 0 <= j < i ==> pixels@[j] == pixels_of_bytes(bytes@)[j],
            decreases n / 3 - i,
        {
            pixels.push(Rgb { r: bytes[3 * i], g: bytes[3 * i + 1], b: bytes[3 * i + 2] });
            i = i + 1;
        }
        assert(pixels@ =~= pixels_of_bytes(bytes@));
        Some(Image { width, height, pixels })
    }

    /// The channels of the pixels of the image, row after row, three bytes
    /// to the pixel: red, green, blue.
    pub fn to_raw(&self) -> (bytes: Vec<u8>)
        ensures
            bytes@ == bytes_of_pixels(self@.row_major()),
    {
        proof {
            use_type_invariant(self);
            self.lemma_row_major();
        }
        let mut bytes: Vec<u8> = Vec::new();
        let n: usize = self.pixels.len();
        let mut i: usize = 0;
        while i < n
            invariant
                i <= n,
                n == self.pixels@.len(),
                bytes@.len() == 3 * i,
                forall|j: int|
                    0 <= j < 3 * i ==> bytes@[j] == bytes_of_pixels(self.pixels@)[j],
            decreases n - i,
        {
            let p: Rgb = self.pixels[i];
            bytes.push(p.r);
            bytes.push(p.g);
            bytes.push(p.b);
            i = i + 1;
        }
        assert(bytes@ =~= bytes_of_pixels(self.pixels@));
        bytes
    }

    /// A copy of the image.
    pub fn duplicate(&self) -> (copy: Image)
        ensures
            copy@ == self@,
    {
        let pixels: Vec<Rgb> = self.to_pixels();
        proof {
            use_type_invariant(self);
            self.lemma_row_major();
        }
        Image { width: self.width, height: self.height, pixels }
    }

    /// The row-major pixels of the view are the buffer.
    proof fn lemma_row_major(&self)
        requires
            self.inv(),
        ensures
            self@.row_major() == self.pixels@,
    {
        let w = self.width as int;
        let h = self.height as int;
        assert forall|p: int| 0 <= p < w * h implies self@.rows[p / w][p % w] == self.pixels@[p] by {
            assert(w > 0) by (nonlinear_arith)
                requires
                    0 <= p < w * h,
                    w >= 0,
            ;
            assert(0 <= p / w < h && 0 <= p % w < w && (p / w) * w + p % w == p)
                by (nonlinear_arith)
                requires
                    0 <= p < w * h,
                    w > 0,
            ;
        }
        assert(self@.row_major() =~= self.pixels@);
    }
}

} // verus!
