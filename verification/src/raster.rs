//! Rasterization of a radar grid into a transparent RGBA overlay and its PNG encoding.
use image::ImageEncoder;
use vstd::prelude::*;
use crate::grid::{lemma_split_index, GridModel, RadarGrid};

verus! {

/// An RGBA colour.
#[derive(Clone, Copy, Debug, PartialEq, Eq)]
pub struct Rgba(pub [u8; 4]);

/// The colour of a rain intensity `num / den` (0.01 mm units, `den > 0`): transparent
/// below 20, then light blue, green, yellow, orange and red from the thresholds
/// 20, 50, 100, 200 and 500 on.
pub open spec fn level_color(num: int, den: int) -> Rgba {
    if num < 20 * den {
        Rgba([0, 0, 0, 0])
    } else if num < 50 * den {
        Rgba([173, 216, 230, 128])
    } else if num < 100 * den {
        Rgba([0, 255, 0, 153])
    } else if num < 200 * den {
        Rgba([255, 255, 0, 179])
    } else if num < 500 * den {
        Rgba([255, 165, 0, 204])
    } else {
        Rgba([255, 0, 0, 230])
    }
}

/// The colour of a cell value; a cell without data is transparent.
pub open spec fn intensity_color(value: Option<i32>) -> Rgba {
    match value {
        Some(v) => level_color(v as int, 1),
        None => Rgba([0, 0, 0, 0]),
    }
}

/// Numerator of the bilinear interpolation of `g` at image pixel `(x, y)` of a
/// `w` x `h` image; the interpolated value is this number divided by `w * h`.
/// The pixel maps to the data position `(x * cols / w, y * rows / h)`; missing data
/// counts as zero.
pub open spec fn interp_num(g: GridModel, x: int, y: int, w: int, h: int) -> int {
    let px = x * g.cols;
    let py = y * g.rows;
    let x0 = px / w;
    let rx = px % w;
    let y0 = py / h;
    let ry = py % h;
    let x1 = if x0 + 1 < g.cols {
        x0 + 1
    } else {
        g.cols - 1
    };
    let y1 = if y0 + 1 < g.rows {
        y0 + 1
    } else {
        g.rows - 1
    };
    (g.value_or_zero(y0, x0) * (w - rx) + g.value_or_zero(y0, x1) * rx) * (h - ry) + (
    g.value_or_zero(y1, x0) * (w - rx) + g.value_or_zero(y1, x1) * rx) * ry
}

/// The colour of image pixel `(x, y)` when `g` is drawn on a `w` x `h` image.
pub open spec fn raster_pixel(g: GridModel, x: int, y: int, w: int, h: int) -> Rgba {
    if g.rows == 0 || g.cols == 0 {
        Rgba([0, 0, 0, 0])
    } else {
        level_color(interp_num(g, x, y, w, h), w * h)
    }
}

/// All pixels of `g` drawn on a `w` x `h` image, in row-major order.
pub open spec fn raster_pixels(g: GridModel, w: nat, h: nat) -> Seq<Rgba> {
    Seq::new(w * h, |i: int| raster_pixel(g, i % (w as int), i / (w as int), w as int, h as int))
}

/// The bytes of a pixel sequence: four bytes (R, G, B, A) per pixel.
pub open spec fn raw_bytes(p: Seq<Rgba>) -> Seq<u8>
    decreases p.len(),
{
    if p.len() == 0 {
        Seq::empty()
    } else {
        raw_bytes(p.drop_last()) + p.last().0@
    }
}

/// The mathematical model of an RGBA image.
pub ghost struct ImageModel {
    pub width: nat,
    pub height: nat,
    pub pixels: Seq<Rgba>,
}

impl ImageModel {
    /// The pixel at column `x`, row `y`.
    pub open spec fn pixel(self, x: int, y: int) -> Rgba {
        self.pixels[y * self.width + x]
    }
}

/// An RGBA image stored row by row.
pub struct RgbaImage {
    width: u32,
    height: u32,
    pixels: Vec<Rgba>,
}

impl RgbaImage {
    #[verifier::type_invariant]
    spec fn inv(self) -> bool {
        self.pixels.len() == self.width * self.height
    }
}

impl View for RgbaImage {
    type V = ImageModel;

    closed spec fn view(&self) -> ImageModel {
        ImageModel { width: self.width as nat, height: self.height as nat, pixels: self.pixels@ }
    }
}

impl RgbaImage {
    /// A `width` x `height` image with every pixel set to `color`.
    pub fn from_pixel(width: u32, height: u32, color: Rgba) -> (img: RgbaImage)
        requires
            width * height * 4 <= usize::MAX,
        ensures
            img@.width == width,
            img@.height == height,
            img@.pixels == Seq::new((width * height) as nat, |i: int| color),
    {
        let n = width as usize * height as usize;
        let mut pixels: Vec<Rgba> = Vec::new();
        let mut i: usize = 0;
        while i < n
            invariant
                i <= n,
                n == width * height,
                pixels@.len() == i,
                forall|k: int| 0 <= k < i ==> #[trigger] pixels@[k] == color,
            decreases n - i,
        {
            pixels.push(color);
            i = i + 1;
        }
        assert(pixels@ =~= Seq::new((width * height) as nat, |i: int| color));
        RgbaImage { width, height, pixels }
    }

    /// The image width.
    pub fn width(&self) -> (w: u32)
        ensures
            w == self@.width,
    {
        self.width
    }

    /// The image height.
    pub fn height(&self) -> (h: u32)
        ensures
            h == self@.height,
    {
        self.height
    }

    /// The pixel at column `x`, row `y`.
    pub fn get_pixel(&self, x: u32, y: u32) -> (c: Rgba)
        requires
            x < self@.width,
            y < self@.height,
        ensures
            c == self@.pixel(x as int, y as int),
    {
        proof {
            use_type_invariant(self);
            crate::grid::lemma_index_in_bounds(self.height as int, self.width as int, y as int, x as int);
        }
        self.pixels[y as usize * self.width as usize + x as usize]
    }

    /// The raw bytes of the image, four per pixel, row by row.
    pub fn as_raw(&self) -> (raw: Vec<u8>)
        ensures
            raw@ == raw_bytes(self@.pixels),
            raw@.len() == 4 * self@.width * self@.height,
    {
        proof {
            use_type_invariant(self);
        }
        let n = self.pixels.len();
        let mut raw: Vec<u8> = Vec::new();
        let mut i: usize = 0;
        assert(self.pixels@.take(0) =~= Seq::<Rgba>::empty());
        while i < n
            invariant
                n == self.pixels@.len(),
                i <= n,
                raw@ == raw_bytes(self.pixels@.take(i as int)),
                raw@.len() == 4 * i,
            decreases n - i,
        {
            let c = self.pixels[i];
            raw.push(c.0[0]);
            raw.push(c.0[1]);
            raw.push(c.0[2]);
            raw.push(c.0[3]);
            proof {
                assert(self.pixels@.take(i + 1).drop_last() =~= self.pixels@.take(i as int));
                assert(self.pixels@.take(i + 1).last() == c);
                assert(raw@ =~= raw_bytes(self.pixels@.take(i as int)) + c.0@);
            }
            i = i + 1;
        }
        assert(self.pixels@.take(n as int) =~= self.pixels@);
        assert(4 * self@.width * self@.height == 4 * (self.width * self.height)) by (nonlinear_arith);
        raw
    }
}

/// The colour of a rain intensity value (0.01 mm units); no data is transparent.
pub fn intensity_to_rgba(value: Option<i32>) -> (c: Rgba)
    ensures
        c == intensity_color(value),
{
    match value {
        None => Rgba([0, 0, 0, 0]),
        Some(v) => color_for_level(v as i128, 1),
    }
}

/// The colour of the intensity `num / den`.
fn color_for_level(num: i128, den: i128) -> (c: Rgba)
    requires
        0 < den <= 0x1_0000_0000_0000_0000,
    ensures
        c == level_color(num as int, den as int),
{
    if num < 20 * den {
        Rgba([0, 0, 0, 0])
    } else if num < 50 * den {
        Rgba([173, 216, 230, 128])
    } else if num < 100 * den {
        Rgba([0, 255, 0, 153])
    } else if num < 200 * den {
        Rgba([255, 255, 0, 179])
    } else if num < 500 * den {
        Rgba([255, 165, 0, 204])
    } else {
        Rgba([255, 0, 0, 230])
    }
}

/// `a * (w - r) + b * r`, the weighted blend of `a` and `b` with weights `w - r` and `r`.
fn blend(a: i128, b: i128, w: i128, r: i128, Ghost(bound): Ghost<int>) -> (res: i128)
    requires
        0 <= bound <= 0x8000_0000_0000_0000,
        -bound <= a <= bound,
        -bound <= b <= bound,
        0 <= r <= w <= 0x1_0000_0000,
    ensures
        res == a * (w - r) + b * r,
        -(bound * w) <= res <= bound * w,
{
    let d = w - r;
    proof {
        assert(-(bound * d) <= a * d <= bound * d) by (nonlinear_arith)
            requires
                -bound <= a <= bound,
                0 <= d,
        ;
        assert(-(bound * r) <= b * r <= bound * r) by (nonlinear_arith)
            requires
                -bound <= b <= bound,
                0 <= r,
        ;
        assert(bound * d + bound * r == bound * w) by (nonlinear_arith)
            requires
                d == w - r,
        ;
        assert(bound * d <= 0x8000_0000_0000_0000 * 0x1_0000_0000) by (nonlinear_arith)
            requires
                0 <= bound <= 0x8000_0000_0000_0000,
                0 <= d <= 0x1_0000_0000,
        ;
        assert(bound * r <= 0x8000_0000_0000_0000 * 0x1_0000_0000) by (nonlinear_arith)
            requires
                0 <= bound <= 0x8000_0000_0000_0000,
                0 <= r <= 0x1_0000_0000,
        ;
    }
    let p = a * d;
    let q = b * r;
    p + q
}

/// Splits `p * n / d` for `p < d`: the quotient is below `n` and the remainder below `d`.
proof fn lemma_scaled_position(p: int, n: int, d: int)
    requires
        0 <= p < d,
        n > 0,
    ensures
        0 <= (p * n) / d < n,
        0 <= (p * n) % d < d,
        d * ((p * n) / d) + (p * n) % d == p * n,
{
    vstd::arithmetic::div_mod::lemma_fundamental_div_mod(p * n, d);
    vstd::arithmetic::div_mod::lemma_mod_bound(p * n, d);
    assert(p * n >= 0) by (nonlinear_arith)
        requires
            p >= 0,
            n > 0,
    ;
    vstd::arithmetic::div_mod::lemma_div_pos_is_pos(p * n, d);
    let q = (p * n) / d;
    let r = (p * n) % d;
    assert(q < n) by (nonlinear_arith)
        requires
            p * n == d * q + r,
            0 <= r,
            0 <= p < d,
            n > 0,
    ;
}

/// The interpolation numerator at image pixel `(x, y)`.
fn interpolate(g: &RadarGrid, x: u32, y: u32, w: u32, h: u32) -> (n: i128)
    requires
        g@.rows > 0,
        g@.cols > 0,
        x < w,
        y < h,
    ensures
        n == interp_num(g@, x as int, y as int, w as int, h as int),
        -0x1_0000_0000_0000_0000_0000_0000 <= n <= 0x1_0000_0000_0000_0000_0000_0000,
{
    let (rows, cols) = g.dim();
    proof {
        assert(x * cols <= 0x1_0000_0000 * 0x1_0000_0000_0000_0000) by (nonlinear_arith)
            requires
                0 <= x < 0x1_0000_0000,
                0 <= cols <= 0xffff_ffff_ffff_ffff,
        ;
        assert(y * rows <= 0x1_0000_0000 * 0x1_0000_0000_0000_0000) by (nonlinear_arith)
            requires
                0 <= y < 0x1_0000_0000,
                0 <= rows <= 0xffff_ffff_ffff_ffff,
        ;
    }
    let px: u128 = x as u128 * cols as u128;
    let py: u128 = y as u128 * rows as u128;
    proof {
        lemma_scaled_position(x as int, cols as int, w as int);
        lemma_scaled_position(y as int, rows as int, h as int);
    }
    let x0 = (px / w as u128) as usize;
    let rx = px % w as u128;
    let y0 = (py / h as u128) as usize;
    let ry = py % h as u128;
    let x1 = if x0 + 1 < cols {
        x0 + 1
    } else {
        cols - 1
    };
    let y1 = if y0 + 1 < rows {
        y0 + 1
    } else {
        rows - 1
    };
    let v00: i128 = match g.get(y0, x0) {
        Some(v) => v as i128,
        None => 0,
    };
    let v10: i128 = match g.get(y0, x1) {
        Some(v) => v as i128,
        None => 0,
    };
    let v01: i128 = match g.get(y1, x0) {
        Some(v) => v as i128,
        None => 0,
    };
    let v11: i128 = match g.get(y1, x1) {
        Some(v) => v as i128,
        None => 0,
    };
    let wi = w as i128;
    let hi = h as i128;
    let rxi = rx as i128;
    let ryi = ry as i128;
    let a = blend(v00, v10, wi, rxi, Ghost(0x8000_0000int));
    let b = blend(v01, v11, wi, rxi, Ghost(0x8000_0000int));
    proof {
        assert(0x8000_0000 * wi <= 0x8000_0000_0000_0000) by (nonlinear_arith)
            requires
                0 <= wi <= 0x1_0000_0000,
        ;
        assert(-0x8000_0000 * wi >= -0x8000_0000_0000_0000) by (nonlinear_arith)
            requires
                0 <= wi <= 0x1_0000_0000,
        ;
    }
    let n = blend(a, b, hi, ryi, Ghost(0x8000_0000_0000_0000int));
    proof {
        assert(0x8000_0000_0000_0000 * hi <= 0x1_0000_0000_0000_0000_0000_0000) by (nonlinear_arith)
            requires
                0 <= hi <= 0x1_0000_0000,
        ;
        assert(-0x8000_0000_0000_0000 * hi >= -0x1_0000_0000_0000_0000_0000_0000) by (nonlinear_arith)
            requires
                0 <= hi <= 0x1_0000_0000,
        ;
    }
    n
}

/// Draws `data` on a `width` x `height` image: each image pixel takes the colour of the
/// bilinear interpolation of the data at its position; an empty grid gives a fully
/// transparent image.
pub fn rasterize_radar_data(data: &RadarGrid, width: u32, height: u32) -> (img: RgbaImage)
    requires
        width * height * 4 <= usize::MAX,
    ensures
        img@.width == width,
        img@.height == height,
        img@.pixels == raster_pixels(data@, width as nat, height as nat),
        forall|x: int, y: int|
            0 <= x < width && 0 <= y < height ==> #[trigger] img@.pixel(x, y) == raster_pixel(
                data@,
                x,
                y,
                width as int,
                height as int,
            ),
{
    let (rows, cols) = data.dim();
    let ghost g = data@;
    let ghost w = width as int;
    let ghost h = height as int;
    if rows == 0 || cols == 0 {
        let img = RgbaImage::from_pixel(width, height, Rgba([0, 0, 0, 0]));
        proof {
            assert(img@.pixels =~= raster_pixels(g, width as nat, height as nat));
            assert forall|x: int, y: int| 0 <= x < width && 0 <= y < height implies #[trigger] img@.pixel(
                x,
                y,
            ) == raster_pixel(g, x, y, w, h) by {
                crate::grid::lemma_index_in_bounds(h, w, y, x);
                assert(h * w == w * h) by (nonlinear_arith);
            }
        }
        return img;
    }
    let mut pixels: Vec<Rgba> = Vec::new();
    let mut y: u32 = 0;
    while y < height
        invariant
            g == data@,
            rows == g.rows,
            cols == g.cols,
            rows > 0,
            cols > 0,
            w == width,
            h == height,
            width * height * 4 <= usize::MAX,
            y <= height,
            pixels@.len() == y * width,
            forall|yy: int, xx: int|
                0 <= yy < y && 0 <= xx < width ==> #[trigger] pixels@[yy * width + xx]
                    == raster_pixel(g, xx, yy, w, h),
        decreases height - y,
    {
        let mut x: u32 = 0;
        while x < width
            invariant
                g == data@,
                rows == g.rows,
                cols == g.cols,
                rows > 0,
                cols > 0,
                w == width,
                h == height,
                width * height * 4 <= usize::MAX,
                y < height,
                x <= width,
                pixels@.len() == y * width + x,
                forall|yy: int, xx: int|
                    0 <= yy < y && 0 <= xx < width ==> #[trigger] pixels@[yy * width + xx]
                        == raster_pixel(g, xx, yy, w, h),
                forall|xx: int| 0 <= xx < x ==> #[trigger] pixels@[y * width + xx] == raster_pixel(
                    g,
                    xx,
                    y as int,
                    w,
                    h,
                ),
            decreases width - x,
        {
            let n = interpolate(data, x, y, width, height);
            proof {
                assert(0 < w * h <= 0x1_0000_0000_0000_0000) by (nonlinear_arith)
                    requires
                        0 <= x < w <= 0x1_0000_0000,
                        0 <= y < h <= 0x1_0000_0000,
                ;
            }
            let den = width as i128 * height as i128;
            let c = color_for_level(n, den);
            proof {
                crate::grid::lemma_index_in_bounds(h, w, y as int, x as int);
            }
            pixels.push(c);
            proof {
                assert forall|yy: int, xx: int|
                    0 <= yy < y && 0 <= xx < width implies #[trigger] pixels@[yy * width + xx]
                    == raster_pixel(g, xx, yy, w, h) by {
                    crate::grid::lemma_index_in_bounds(y as int, w, yy, xx);
                }
            }
            x = x + 1;
        }
        proof {
            assert forall|yy: int, xx: int|
                0 <= yy < y + 1 && 0 <= xx < width implies #[trigger] pixels@[yy * width + xx]
                == raster_pixel(g, xx, yy, w, h) by {
                if yy < y {
                    crate::grid::lemma_index_in_bounds(y as int, w, yy, xx);
                }
            }
            assert((y + 1) * width == y * width + width) by (nonlinear_arith);
        }
        y = y + 1;
    }
    proof {
        assert forall|k: int| 0 <= k < pixels@.len() implies pixels@[k] == raster_pixels(
            g,
            width as nat,
            height as nat,
        )[k] by {
            assert(h * w == w * h) by (nonlinear_arith);
            assert(k < w * h);
            lemma_split_index(k, w, h);
            let yy = k / w;
            let xx = k % w;
            assert(pixels@[yy * width + xx] == raster_pixel(g, xx, yy, w, h));
        }
        assert(pixels@ =~= raster_pixels(g, width as nat, height as nat));
    }
    RgbaImage { width, height, pixels }
}

/// Number of palette thresholds (20, 50, 100, 200, 500) reached by `num / den`.
pub open spec fn level_rank(num: int, den: int) -> nat {
    if num < 20 * den {
        0
    } else if num < 50 * den {
        1
    } else if num < 100 * den {
        2
    } else if num < 200 * den {
        3
    } else if num < 500 * den {
        4
    } else {
        5
    }
}

/// A stronger intensity never reaches fewer palette levels, and the colour is fully
/// transparent exactly below the first level (0.2 mm/h) and opaque to some degree from it on.
pub proof fn lemma_palette_monotone(n1: int, n2: int, den: int)
    requires
        den > 0,
        n1 <= n2,
    ensures
        level_rank(n1, den) <= level_rank(n2, den),
        (level_color(n1, den).0[3] == 0) <==> n1 < 20 * den,
{
}

/// The colour depends only on the intensity `num / den`, not on how the fraction is written.
pub proof fn lemma_level_color_scale(v: int, k: int)
    requires
        k > 0,
    ensures
        level_color(v * k, k) == level_color(v, 1),
{
    assert(v * k < 20 * k <==> v < 20) by (nonlinear_arith)
        requires
            k > 0,
    ;
    assert(v * k < 50 * k <==> v < 50) by (nonlinear_arith)
        requires
            k > 0,
    ;
    assert(v * k < 100 * k <==> v < 100) by (nonlinear_arith)
        requires
            k > 0,
    ;
    assert(v * k < 200 * k <==> v < 200) by (nonlinear_arith)
        requires
            k > 0,
    ;
    assert(v * k < 500 * k <==> v < 500) by (nonlinear_arith)
        requires
            k > 0,
    ;
}

/// Drawn at its own size (one image pixel per cell), each pixel takes exactly the
/// colour of its cell, missing data being transparent.
pub proof fn lemma_native_scale(g: GridModel, x: int, y: int)
    requires
        0 <= x < g.cols,
        0 <= y < g.rows,
    ensures
        raster_pixel(g, x, y, g.cols as int, g.rows as int) == level_color(g.value_or_zero(y, x) as int, 1),
{
    let w = g.cols as int;
    let h = g.rows as int;
    vstd::arithmetic::div_mod::lemma_fundamental_div_mod_converse(x * w, w, x, 0);
    vstd::arithmetic::div_mod::lemma_fundamental_div_mod_converse(y * h, h, y, 0);
    let v = g.value_or_zero(y, x) as int;
    assert(interp_num(g, x, y, w, h) == v * (w * h)) by (nonlinear_arith)
        requires
            interp_num(g, x, y, w, h) == (v * (w - 0) + g.value_or_zero(y, if x + 1 < w { x + 1 } else { w - 1 }) * 0) * (h - 0)
                + (g.value_or_zero(if y + 1 < h { y + 1 } else { h - 1 }, x) * (w - 0) + g.value_or_zero(if y + 1 < h { y + 1 } else { h - 1 }, if x + 1 < w { x + 1 } else { w - 1 }) * 0) * 0,
    ;
    assert(w * h > 0) by (nonlinear_arith)
        requires
            w > 0,
            h > 0,
    ;
    lemma_level_color_scale(v, w * h);
}

/// Each pixel is coloured by the bilinear blend of the four cells around its data
/// position, in both axes: pixel `(x, y)` of a `w` x `h` image sits at data column
/// `x * cols / w` and row `y * rows / h`; its intensity times `w * h` is the blend of the
/// two neighbouring rows `y0` and `y1 = min(y0 + 1, rows - 1)` with weights `h - ry`
/// and `ry`, each row being the blend of columns `x0` and `x1 = min(x0 + 1, cols - 1)`
/// with weights `w - rx` and `rx` (missing data counts as zero).
pub proof fn lemma_raster_pixel_bilinear(g: GridModel, x: int, y: int, w: int, h: int)
    requires
        g.rows > 0,
        g.cols > 0,
        0 <= x < w,
        0 <= y < h,
    ensures
        ({
            let px = x * g.cols;
            let py = y * g.rows;
            let (x0, rx) = (px / w, px % w);
            let (y0, ry) = (py / h, py % h);
            let x1 = if x0 + 1 < g.cols { x0 + 1 } else { g.cols - 1 };
            let y1 = if y0 + 1 < g.rows { y0 + 1 } else { g.rows - 1 };
            let cell = |r: int, c: int| match g.cells[r * g.cols + c] {
                Some(v) => v as int,
                None => 0,
            };
            let upper = cell(y0, x0) * (w - rx) + cell(y0, x1) * rx;
            let lower = cell(y1, x0) * (w - rx) + cell(y1, x1) * rx;
            raster_pixel(g, x, y, w, h) == level_color(upper * (h - ry) + lower * ry, w * h)
        }),
{
}

/// A pixel whose data position falls on a cell column and exactly halfway between two
/// rows gets the average of the two cells: twice its intensity is their sum.
pub proof fn lemma_raster_pixel_between_rows(g: GridModel, x: int, y: int, w: int, h: int)
    requires
        g.rows > 0,
        g.cols > 0,
        0 <= x < w,
        0 <= y < h,
        (x * g.cols) % w == 0,
        2 * ((y * g.rows) % h) == h,
        (y * g.rows) / h + 1 < g.rows,
    ensures
        ({
            let r = (y * g.rows) / h;
            let c = (x * g.cols) / w;
            raster_pixel(g, x, y, w, h) == level_color(
                (g.value_or_zero(r, c) + g.value_or_zero(r + 1, c)) * (w * h),
                2 * (w * h),
            )
        }),
{
    let r = (y * g.rows) / h;
    let c = (x * g.cols) / w;
    let ry = (y * g.rows) % h;
    let a = g.value_or_zero(r, c) as int;
    let b = g.value_or_zero(r + 1, c) as int;
    let n = interp_num(g, x, y, w, h);
    assert(n == (a * w) * (h - ry) + (b * w) * ry);
    assert(2 * n == (a + b) * (w * h)) by (nonlinear_arith)
        requires
            n == (a * w) * (h - ry) + (b * w) * ry,
            2 * ry == h,
    ;
    assert(w * h > 0) by (nonlinear_arith)
        requires
            w > 0,
            h > 0,
    ;
    lemma_level_color_scale_fraction(n, 2 * n, w * h);
}

/// Scaling numerator and denominator together keeps the colour.
proof fn lemma_level_color_scale_fraction(n: int, m: int, d: int)
    requires
        d > 0,
        m == 2 * n,
    ensures
        level_color(n, d) == level_color(m, 2 * d),
{
}

/// The PNG file that the `image` crate writes for raw RGBA8 pixel bytes of a
/// `width` x `height` image.
pub uninterp spec fn png_encoding(raw: Seq<u8>, width: u32, height: u32) -> Seq<u8>;

/// The eight bytes that start every PNG file.
pub open spec fn png_signature() -> Seq<u8> {
    seq![137u8, 80u8, 78u8, 71u8, 13u8, 10u8, 26u8, 10u8]
}

/// Calls `image::codecs::png::PngEncoder::write_image` with colour type RGBA8 into an
/// empty byte vector. Trusted: the bytes written are the encoder's PNG file for these
/// arguments, which starts with the PNG signature (written first by the encoder's
/// header). The encoder rejects a zero width or height and a buffer whose length is not
/// `4 * width * height`; `requires` leaves those inputs out.
#[verifier::external_body]
fn png_write_rgba8(raw: &[u8], width: u32, height: u32) -> (png: Vec<u8>)
    requires
        width > 0,
        height > 0,
        raw@.len() == 4 * width * height,
    ensures
        png@ == png_encoding(raw@, width, height),
        png@.len() >= 8,
        png@.subrange(0, 8) == png_signature(),
{
    let mut buffer = Vec::new();
    let encoder = image::codecs::png::PngEncoder::new(&mut buffer);
    encoder.write_image(raw, width, height, image::ExtendedColorType::Rgba8).expect(
        "Failed to encode PNG",
    );
    buffer
}

/// Encodes an image as a PNG file.
pub fn encode_png(img: &RgbaImage) -> (png: Vec<u8>)
    requires
        img@.width > 0,
        img@.height > 0,
    ensures
        png@ == png_encoding(raw_bytes(img@.pixels), img@.width as u32, img@.height as u32),
        png@.len() >= 8,
        png@.subrange(0, 8) == png_signature(),
{
    let raw = img.as_raw();
    let w = img.width();
    let h = img.height();
    png_write_rgba8(raw.as_slice(), w, h)
}

} // verus!
