//! Sparse pixel templates and the frames they are matched against.
//!
//! A `Landmark` is an immutable sparse set of reference pixels with a
//! per-pixel difference threshold; its `present` test compares it against an
//! `Image` at a candidate offset.

use vstd::prelude::*;

verus! {

/// An RGB color.
#[derive(Debug, Copy, Clone, Eq, PartialEq, Structural, Default, Hash)]
pub struct Rgb {
    pub r: u8,
    pub g: u8,
    pub b: u8,
}

/// An RGBA color. Alpha 255 is fully opaque; in a template source, any other
/// alpha marks a hole ("don't care" location).
#[derive(Debug, Copy, Clone, Eq, PartialEq, Structural, Default, Hash)]
pub struct Rgba {
    pub r: u8,
    pub g: u8,
    pub b: u8,
    pub a: u8,
}

impl Rgba {
    /// The color channels, dropping alpha.
    pub open spec fn rgb_spec(self) -> Rgb {
        Rgb { r: self.r, g: self.g, b: self.b }
    }

    /// The color channels, dropping alpha.
    pub fn rgb(&self) -> (c: Rgb)
        ensures
            c == self.rgb_spec(),
    {
        Rgb { r: self.r, g: self.g, b: self.b }
    }
}

/// A rectangular pixel buffer, row-major.
#[derive(Debug, Clone, PartialEq, Eq)]
pub struct Image {
    pub width: u32,
    pub height: u32,
    pub pixels: Vec<Rgba>,
}

impl Image {
    /// The buffer holds exactly one pixel per cell.
    pub open spec fn wf(self) -> bool {
        self.pixels@.len() == self.width * self.height
    }

    /// The pixel at a cell, as a spec-level value.
    pub open spec fn pixel_at(self, x: int, y: int) -> Rgba {
        self.pixels@[y * self.width + x]
    }

    /// Build an image from its dimensions and row-major pixel data; rejects a
    /// buffer whose length does not match the dimensions.
    pub fn new(width: u32, height: u32, pixels: Vec<Rgba>) -> (r: Option<Image>)
        ensures
            match r {
                Some(img) => {
                    &&& img.wf()
                    &&& img.width == width
                    &&& img.height == height
                    &&& img.pixels == pixels
                    &&& pixels@.len() == width * height
                },
                None => pixels@.len() != width * height,
            },
    {
        proof {
            assert(width as int * height as int <= u64::MAX) by (nonlinear_arith)
                requires
                    width <= u32::MAX,
                    height <= u32::MAX,
            ;
        }
        let expect: u64 = (width as u64) * (height as u64);
        if pixels.len() as u64 == expect {
            Some(Image { width, height, pixels })
        } else {
            None
        }
    }

    /// An image of uniform color.
    pub fn filled(width: u32, height: u32, color: Rgba) -> (img: Image)
        requires
            width * height <= usize::MAX,
        ensures
            img.wf(),
            img.width == width,
            img.height == height,
            forall|x: int, y: int|
                0 <= x < width && 0 <= y < height ==> #[trigger] img.pixel_at(x, y) == color,
    {
        let n: usize = (width as usize) * (height as usize);
        let mut pixels: Vec<Rgba> = Vec::new();
        let mut i: usize = 0;
        while i < n
            invariant
                i <= n,
                pixels@.len() == i,
                forall|j: int| 0 <= j < i ==> pixels@[j] == color,
            decreases n - i,
        {
            pixels.push(color);
            i = i + 1;
        }
        let img = Image { width, height, pixels };
        proof {
            assert forall|x: int, y: int|
                0 <= x < width && 0 <= y < height implies #[trigger] img.pixel_at(x, y)
                == color by {
                lemma_cell_index(width as int, height as int, x, y);
            }
        }
        img
    }

    /// Width of the image.
    pub fn width(&self) -> (r: u32)
        ensures
            r == self.width,
    {
        self.width
    }

    /// Height of the image.
    pub fn height(&self) -> (r: u32)
        ensures
            r == self.height,
    {
        self.height
    }

    /// Read the pixel at a cell.
    pub fn get_pixel(&self, x: u32, y: u32) -> (p: Rgba)
        requires
            self.wf(),
            x < self.width,
            y < self.height,
        ensures
            p == self.pixel_at(x as int, y as int),
    {
        proof {
            lemma_cell_index(self.width as int, self.height as int, x as int, y as int);
        }
        // The buffer's length is a machine length, so the index computed
        // below, which stays under it, fits usize as well.
        let _buffer_len: usize = self.pixels.len();
        let idx: usize = (y as usize) * (self.width as usize) + (x as usize);
        self.pixels[idx]
    }

    /// Overwrite the pixel at a cell.
    pub fn set_pixel(&mut self, x: u32, y: u32, color: Rgba)
        requires
            old(self).wf(),
            x < old(self).width,
            y < old(self).height,
        ensures
            final(self).wf(),
            final(self).width == old(self).width,
            final(self).height == old(self).height,
            final(self).pixel_at(x as int, y as int) == color,
            forall|px: int, py: int|
                0 <= px < old(self).width && 0 <= py < old(self).height && !(px == x && py == y)
                    ==> #[trigger] final(self).pixel_at(px, py) == old(self).pixel_at(px, py),
    {
        proof {
            lemma_cell_index(self.width as int, self.height as int, x as int, y as int);
        }
        // The buffer's length is a machine length, so the index computed
        // below, which stays under it, fits usize as well.
        let _buffer_len: usize = self.pixels.len();
        let idx: usize = (y as usize) * (self.width as usize) + (x as usize);
        self.pixels.set(idx, color);
        proof {
            assert forall|px: int, py: int|
                0 <= px < self.width && 0 <= py < self.height && !(px == x && py
                == y) implies #[trigger] self.pixel_at(px, py) == old(self).pixel_at(px, py) by {
                lemma_cell_index(self.width as int, self.height as int, px, py);
                lemma_cell_distinct(self.width as int, x as int, y as int, px, py);
            }
        }
    }
}

/// A cell's row-major index lies within the buffer.
proof fn lemma_cell_index(w: int, h: int, x: int, y: int)
    requires
        0 <= x < w,
        0 <= y < h,
    ensures
        0 <= y * w + x < w * h,
        y * w <= (h - 1) * w,
{
    assert(0 <= y * w + x < w * h && y * w <= (h - 1) * w) by (nonlinear_arith)
        requires
            0 <= x < w,
            0 <= y < h,
    ;
}

/// Distinct cells have distinct row-major indices.
proof fn lemma_cell_distinct(w: int, x1: int, y1: int, x2: int, y2: int)
    requires
        0 <= x1 < w,
        0 <= x2 < w,
        y1 >= 0,
        y2 >= 0,
        !(x1 == x2 && y1 == y2),
    ensures
        y1 * w + x1 != y2 * w + x2,
{
    assert(y1 * w + x1 != y2 * w + x2) by (nonlinear_arith)
        requires
            0 <= x1 < w,
            0 <= x2 < w,
            y1 >= 0,
            y2 >= 0,
            !(x1 == x2 && y1 == y2),
    ;
}

/// Absolute difference of two channel values.
pub open spec fn channel_diff(a: u8, b: u8) -> int {
    if a >= b {
        a - b
    } else {
        b - a
    }
}

/// A reference color at a local offset within a landmark's bounding box.
#[derive(Debug, Clone, Copy, Eq, PartialEq)]
pub struct Pixel {
    pub rgb: Rgb,
    pub offset: (u32, u32),
}

impl Pixel {
    /// Manhattan color distance: the sum of the three per-channel absolute
    /// differences.
    pub open spec fn difference_spec(self, other: Rgb) -> int {
        channel_diff(self.rgb.r, other.r) + channel_diff(self.rgb.g, other.g) + channel_diff(
            self.rgb.b,
            other.b,
        )
    }

    /// Manhattan color distance: the sum of the three per-channel absolute
    /// differences.
    pub fn difference(&self, other: &Rgb) -> (d: u16)
        ensures
            d == self.difference_spec(*other),
    {
        let dr: u16 = if self.rgb.r >= other.r {
            (self.rgb.r - other.r) as u16
        } else {
            (other.r - self.rgb.r) as u16
        };
        let dg: u16 = if self.rgb.g >= other.g {
            (self.rgb.g - other.g) as u16
        } else {
            (other.g - self.rgb.g) as u16
        };
        let db: u16 = if self.rgb.b >= other.b {
            (self.rgb.b - other.b) as u16
        } else {
            (other.b - self.rgb.b) as u16
        };
        dr + dg + db
    }
}

/// Row-major order on template pixels: by row, then by column.
pub open spec fn pixel_le(a: Pixel, b: Pixel) -> bool {
    a.offset.1 < b.offset.1 || (a.offset.1 == b.offset.1 && a.offset.0 <= b.offset.0)
}

/// The template pixels gathered from the first `n` cells of a source image in
/// row-major order: one template pixel per fully opaque cell.
pub open spec fn template_pixels(img: Image, n: int) -> Seq<Pixel>
    decreases n,
{
    if n <= 0 {
        Seq::empty()
    } else {
        let i = n - 1;
        let x = i % (img.width as int);
        let y = i / (img.width as int);
        template_pixels(img, i) + (if img.pixel_at(x, y).a == 255 {
            seq![Pixel { rgb: img.pixel_at(x, y).rgb_spec(), offset: (x as u32, y as u32) }]
        } else {
            Seq::empty()
        })
    }
}

/// `shifted` pictures the same scene as `img`, uniformly translated by
/// `(dx, dy)`: wherever a cell and its translate are both in bounds, the
/// colors agree.
pub open spec fn is_shift_of(shifted: Image, img: Image, dx: int, dy: int) -> bool {
    forall|x: int, y: int|
        0 <= x < img.width && 0 <= y < img.height && 0 <= x + dx < shifted.width && 0 <= y + dy
            < shifted.height ==> #[trigger] shifted.pixel_at(x + dx, y + dy) == img.pixel_at(x, y)
}

/// An immutable sparse pixel template: a bounding box, an ordered set of
/// reference pixels (not necessarily one per cell), and a per-pixel
/// difference threshold.
#[derive(Debug, Clone, PartialEq, Eq)]
pub struct Landmark {
    pixels: Vec<Pixel>,
    name: Option<String>,
    pixel_difference_threshold: u16,
    width: u32,
    height: u32,
}

impl Landmark {
    /// The template's pixels, in storage order.
    pub closed spec fn pixels_spec(self) -> Seq<Pixel> {
        self.pixels@
    }

    /// The template's optional name.
    pub closed spec fn name_spec(self) -> Option<String> {
        self.name
    }

    /// The per-pixel difference threshold.
    pub closed spec fn threshold_spec(self) -> u16 {
        self.pixel_difference_threshold
    }

    /// Width of the bounding box.
    pub closed spec fn width_spec(self) -> u32 {
        self.width
    }

    /// Height of the bounding box.
    pub closed spec fn height_spec(self) -> u32 {
        self.height
    }

    /// Every stored pixel lies inside the bounding box.
    pub open spec fn wf(self) -> bool {
        forall|i: int|
            0 <= i < self.pixels_spec().len() ==> (#[trigger] self.pixels_spec()[i]).offset.0
                < self.width_spec() && self.pixels_spec()[i].offset.1 < self.height_spec()
    }

    /// One stored pixel matches the image at candidate offset `(px, py)`:
    /// its Manhattan color distance to the image stays within the threshold.
    pub open spec fn pixel_matches(self, img: Image, px: int, py: int, p: Pixel) -> bool {
        p.difference_spec(img.pixel_at(px + p.offset.0, py + p.offset.1).rgb_spec())
            <= self.threshold_spec()
    }

    /// The presence test: the template fits entirely inside the image at
    /// offset `(px, py)` and every stored pixel matches there.
    pub open spec fn present_spec(self, img: Image, px: int, py: int) -> bool {
        &&& px >= 0
        &&& py >= 0
        &&& px + self.width_spec() <= img.width
        &&& py + self.height_spec() <= img.height
        &&& forall|i: int|
            0 <= i < self.pixels_spec().len() ==> self.pixel_matches(
                img,
                px,
                py,
                #[trigger] self.pixels_spec()[i],
            )
    }

    /// Build a template from a source image: every fully opaque pixel becomes
    /// a reference pixel, scanned in row-major order; all other pixels are
    /// holes. The source dimensions become the bounding box.
    pub fn from_image(img: &Image, pixel_difference_threshold: u16) -> (lm: Landmark)
        requires
            img.wf(),
        ensures
            lm.wf(),
            lm.pixels_spec() == template_pixels(*img, img.width * img.height),
            lm.name_spec() is None,
            lm.threshold_spec() == pixel_difference_threshold,
            lm.width_spec() == img.width,
            lm.height_spec() == img.height,
    {
        let width = img.width();
        let height = img.height();
        let mut pixels: Vec<Pixel> = Vec::new();
        let mut ly: u32 = 0;
        while ly < height
            invariant
                img.wf(),
                width == img.width,
                height == img.height,
                ly <= height,
                pixels@ == template_pixels(*img, ly * width),
                forall|i: int|
                    0 <= i < pixels@.len() ==> (#[trigger] pixels@[i]).offset.0 < width
                        && pixels@[i].offset.1 < height,
            decreases height - ly,
        {
            let mut lx: u32 = 0;
            proof {
                if width > 0 {
                    lemma_cell_index(width as int, height as int, 0, ly as int);
                }
                assert((ly * width) as int == ly as int * width as int);
            }
            while lx < width
                invariant
                    img.wf(),
                    width == img.width,
                    height == img.height,
                    ly < height,
                    lx <= width,
                    pixels@ == template_pixels(*img, ly as int * width as int + lx as int),
                    forall|i: int|
                        0 <= i < pixels@.len() ==> (#[trigger] pixels@[i]).offset.0 < width
                            && pixels@[i].offset.1 < height,
                decreases width - lx,
            {
                proof {
                    lemma_cell_index(width as int, height as int, lx as int, ly as int);
                    lemma_cell_decompose(width as int, lx as int, ly as int);
                }
                let p = img.get_pixel(lx, ly);
                if p.a == 255 {
                    pixels.push(Pixel { rgb: p.rgb(), offset: (lx, ly) });
                }
                proof {
                    assert(pixels@ =~= template_pixels(
                        *img,
                        ly as int * width as int + lx as int + 1,
                    ));
                }
                lx = lx + 1;
            }
            proof {
                assert((ly as int + 1) * width as int == ly as int * width as int + width as int)
                    by (nonlinear_arith);
            }
            ly = ly + 1;
        }
        proof {
            assert(img.height as int * img.width as int == img.width as int * img.height as int)
                by (nonlinear_arith);
        }
        Landmark {
            pixels,
            name: None,
            pixel_difference_threshold,
            width,
            height,
        }
    }

    /// The presence test against an image at a candidate offset. Returns
    /// false immediately when the template would not fit entirely inside the
    /// image; otherwise true exactly when every stored pixel matches.
    pub fn present(&self, img: &Image, position: (u32, u32)) -> (r: bool)
        requires
            self.wf(),
            img.wf(),
        ensures
            r == self.present_spec(*img, position.0 as int, position.1 as int),
    {
        if (position.0 as u64 + self.width as u64 > img.width() as u64) || (position.1 as u64
            + self.height as u64 > img.height() as u64) {
            return false;
        }
        let n = self.pixels.len();
        let mut i: usize = 0;
        while i < n
            invariant
                self.wf(),
                img.wf(),
                n == self.pixels@.len(),
                i <= n,
                position.0 + self.width <= img.width,
                position.1 + self.height <= img.height,
                forall|j: int|
                    0 <= j < i ==> self.pixel_matches(
                        *img,
                        position.0 as int,
                        position.1 as int,
                        #[trigger] self.pixels@[j],
                    ),
            decreases n - i,
        {
            let p = self.pixels[i];
            proof {
                assert(self.pixels_spec()[i as int] == p);
                assert(p.offset.0 < self.width_spec() && p.offset.1 < self.height_spec());
            }
            let x = position.0 + p.offset.0;
            let y = position.1 + p.offset.1;
            let pixel = img.get_pixel(x, y);
            let d = p.difference(&pixel.rgb());
            if d > self.pixel_difference_threshold {
                return false;
            }
            i = i + 1;
        }
        true
    }

    /// Presence is translation-covariant: a match survives a uniform shift of
    /// the scene, as long as the template stays fully in bounds.
    pub proof fn lemma_present_translation(
        self,
        img: Image,
        img2: Image,
        px: int,
        py: int,
        dx: int,
        dy: int,
    )
        requires
            self.wf(),
            self.present_spec(img, px, py),
            is_shift_of(img2, img, dx, dy),
            px + dx >= 0,
            py + dy >= 0,
            px + dx + self.width_spec() <= img2.width,
            py + dy + self.height_spec() <= img2.height,
        ensures
            self.present_spec(img2, px + dx, py + dy),
    {
        assert forall|i: int| 0 <= i < self.pixels_spec().len() implies self.pixel_matches(
            img2,
            px + dx,
            py + dy,
            #[trigger] self.pixels_spec()[i],
        ) by {
            let p = self.pixels_spec()[i];
            let x = px + p.offset.0;
            let y = py + p.offset.1;
            assert(img2.pixel_at(x + dx, y + dy) == img.pixel_at(x, y));
        }
    }

    /// Presence fails whenever the template does not fit entirely inside the
    /// image at the candidate offset, whatever the pixel set or threshold.
    pub proof fn lemma_present_out_of_bounds(self, img: Image, px: int, py: int)
        requires
            px < 0 || py < 0 || px + self.width_spec() > img.width || py + self.height_spec()
                > img.height,
        ensures
            !self.present_spec(img, px, py),
    {
    }

    /// The template's pixels, in storage order.
    pub fn pixels(&self) -> (r: &[Pixel])
        ensures
            r@ == self.pixels_spec(),
    {
        self.pixels.as_slice()
    }

    /// The per-pixel difference threshold.
    pub fn pixel_difference_threshold(&self) -> (r: u16)
        ensures
            r == self.threshold_spec(),
    {
        self.pixel_difference_threshold
    }

    /// Width of the bounding box.
    pub fn width(&self) -> (r: u32)
        ensures
            r == self.width_spec(),
    {
        self.width
    }

    /// Height of the bounding box.
    pub fn height(&self) -> (r: u32)
        ensures
            r == self.height_spec(),
    {
        self.height
    }

    /// Replace the per-pixel difference threshold.
    pub fn set_pixel_difference_threshold(&mut self, value: u16)
        ensures
            final(self).threshold_spec() == value,
            final(self).pixels_spec() == old(self).pixels_spec(),
            final(self).name_spec() == old(self).name_spec(),
            final(self).width_spec() == old(self).width_spec(),
            final(self).height_spec() == old(self).height_spec(),
            final(self).wf() == old(self).wf(),
    {
        self.pixel_difference_threshold = value;
        proof {
            lemma_wf_same_fields(*old(self), *self);
        }
    }

    /// Replace the template's name.
    pub fn set_name(&mut self, value: Option<String>)
        ensures
            final(self).name_spec() == value,
            final(self).pixels_spec() == old(self).pixels_spec(),
            final(self).threshold_spec() == old(self).threshold_spec(),
            final(self).width_spec() == old(self).width_spec(),
            final(self).height_spec() == old(self).height_spec(),
            final(self).wf() == old(self).wf(),
    {
        self.name = value;
        proof {
            lemma_wf_same_fields(*old(self), *self);
        }
    }

    /// What rendering the first `n` template pixels onto a transparent
    /// backdrop leaves at cell `(x, y)`: the last written pixel wins.
    pub open spec fn rendered_upto(self, n: int, x: int, y: int) -> Rgba
        decreases n,
    {
        if n <= 0 {
            Rgba { r: 0, g: 0, b: 0, a: 0 }
        } else {
            let p = self.pixels_spec()[n - 1];
            if p.offset.0 == x && p.offset.1 == y {
                Rgba { r: p.rgb.r, g: p.rgb.g, b: p.rgb.b, a: 255 }
            } else {
                self.rendered_upto(n - 1, x, y)
            }
        }
    }

    /// Render the template into an image: reference pixels become fully
    /// opaque, holes stay fully transparent.
    pub fn to_rgba(&self) -> (img: Image)
        requires
            self.wf(),
            self.width_spec() * self.height_spec() <= usize::MAX,
        ensures
            img.wf(),
            img.width == self.width_spec(),
            img.height == self.height_spec(),
            forall|x: int, y: int|
                0 <= x < self.width_spec() && 0 <= y < self.height_spec()
                    ==> #[trigger] img.pixel_at(x, y) == self.rendered_upto(
                    self.pixels_spec().len() as int,
                    x,
                    y,
                ),
    {
        let mut img = Image::filled(self.width, self.height, Rgba { r: 0, g: 0, b: 0, a: 0 });
        let n = self.pixels.len();
        let mut i: usize = 0;
        while i < n
            invariant
                self.wf(),
                n == self.pixels_spec().len(),
                i <= n,
                img.wf(),
                img.width == self.width_spec(),
                img.height == self.height_spec(),
                forall|x: int, y: int|
                    0 <= x < self.width_spec() && 0 <= y < self.height_spec()
                        ==> #[trigger] img.pixel_at(x, y) == self.rendered_upto(i as int, x, y),
            decreases n - i,
        {
            let p = self.pixels[i];
            proof {
                assert(self.pixels_spec()[i as int] == p);
            }
            img.set_pixel(p.offset.0, p.offset.1, Rgba { r: p.rgb.r, g: p.rgb.g, b: p.rgb.b, a: 255 });
            i = i + 1;
        }
        img
    }

    /// The template's name, if any.
    pub fn name(&self) -> (r: Option<String>)
        ensures
            r is Some <==> self.name_spec() is Some,
            r is Some ==> r.unwrap()@ == self.name_spec().unwrap()@,
    {
        match &self.name {
            Some(s) => Some(s.clone()),
            None => None,
        }
    }
}

impl Landmark {
    /// Reorder the template's pixels into row-major order (by row, then by
    /// column), so the inner comparison loop of `present` walks the target
    /// image with locality. Purely a reorder: the pixel multiset is kept
    /// exactly.
    #[verifier::loop_isolation(false)]
    pub fn optimize_pixels_row_seq(&mut self)
        ensures
            final(self).pixels_spec().to_multiset() == old(self).pixels_spec().to_multiset(),
            final(self).pixels_spec().len() == old(self).pixels_spec().len(),
            forall|i: int, j: int|
                0 <= i < j < final(self).pixels_spec().len() ==> pixel_le(
                    #[trigger] final(self).pixels_spec()[i],
                    #[trigger] final(self).pixels_spec()[j],
                ),
            final(self).name_spec() == old(self).name_spec(),
            final(self).threshold_spec() == old(self).threshold_spec(),
            final(self).width_spec() == old(self).width_spec(),
            final(self).height_spec() == old(self).height_spec(),
            final(self).wf() == old(self).wf(),
    {
        broadcast use vstd::seq_lib::group_to_multiset_ensures;
        broadcast use vstd::multiset::group_multiset_axioms;

        let ghost orig = self.pixels@;
        let mut out: Vec<Pixel> = Vec::new();
        while self.pixels.len() > 0
            invariant
                self.name == old(self).name,
                self.pixel_difference_threshold == old(self).pixel_difference_threshold,
                self.width == old(self).width,
                self.height == old(self).height,
                out@.to_multiset().add(self.pixels@.to_multiset()) == orig.to_multiset(),
                forall|i: int, j: int|
                    0 <= i < j < out@.len() ==> pixel_le(#[trigger] out@[i], #[trigger] out@[j]),
                forall|i: int, j: int|
                    0 <= i < out@.len() && 0 <= j < self.pixels@.len() ==> pixel_le(
                        #[trigger] out@[i],
                        #[trigger] self.pixels@[j],
                    ),
            decreases self.pixels.len(),
        {
            let n = self.pixels.len();
            let mut m: usize = 0;
            let mut j: usize = 1;
            while j < n
                invariant
                    n == self.pixels@.len(),
                    0 < n,
                    m < j <= n,
                    forall|t: int| 0 <= t < j ==> pixel_le(self.pixels@[m as int], #[trigger] self.pixels@[t]),
                decreases n - j,
            {
                let pm = self.pixels[m];
                let pj = self.pixels[j];
                if pj.offset.1 < pm.offset.1 || (pj.offset.1 == pm.offset.1 && pj.offset.0
                    < pm.offset.0) {
                    m = j;
                }
                j = j + 1;
            }
            let ghost src_before = self.pixels@;
            let ghost out_before = out@;
            let p = self.pixels.remove(m);
            out.push(p);
            proof {
                assert(src_before.contains(src_before[m as int]));
                assert(src_before.to_multiset().count(p) > 0);
                assert(out@.to_multiset() == out_before.to_multiset().insert(p));
                assert(self.pixels@.to_multiset() == src_before.to_multiset().remove(p));
                assert(out@.to_multiset().add(self.pixels@.to_multiset()) =~= orig.to_multiset());
                assert forall|a: int, b: int|
                    0 <= a < b < out@.len() implies pixel_le(
                    #[trigger] out@[a],
                    #[trigger] out@[b],
                ) by {
                    if b < out@.len() - 1 {
                        assert(out@[a] == out_before[a] && out@[b] == out_before[b]);
                    } else {
                        assert(out@[a] == out_before[a] && out@[b] == p);
                    }
                }
                assert forall|a: int, b: int|
                    0 <= a < out@.len() && 0 <= b < self.pixels@.len() implies pixel_le(
                    #[trigger] out@[a],
                    #[trigger] self.pixels@[b],
                ) by {
                    let b_orig = if b < m { b } else { b + 1 };
                    assert(self.pixels@[b] == src_before[b_orig]);
                    if a < out@.len() - 1 {
                        assert(out@[a] == out_before[a]);
                    } else {
                        assert(out@[a] == p && p == src_before[m as int]);
                    }
                }
            }
        }
        self.pixels = out;
        proof {
            assert(self.pixels@.to_multiset() =~= orig.to_multiset());
            assert(self.pixels@.len() == self.pixels@.to_multiset().len());
            assert(orig.len() == orig.to_multiset().len());
            lemma_wf_multiset(*old(self), *self);
        }
    }
}

/// Well-formedness of a landmark is a property of the pixel multiset and the
/// bounding box alone.
proof fn lemma_wf_multiset(a: Landmark, b: Landmark)
    requires
        a.pixels_spec().to_multiset() == b.pixels_spec().to_multiset(),
        a.width_spec() == b.width_spec(),
        a.height_spec() == b.height_spec(),
    ensures
        a.wf() == b.wf(),
{
    broadcast use vstd::seq_lib::group_to_multiset_ensures;

    if a.wf() {
        assert forall|i: int| 0 <= i < b.pixels_spec().len() implies (
        #[trigger] b.pixels_spec()[i]).offset.0 < b.width_spec() && b.pixels_spec()[i].offset.1
            < b.height_spec() by {
            let p = b.pixels_spec()[i];
            assert(b.pixels_spec().contains(p));
            assert(b.pixels_spec().to_multiset().count(p) > 0);
            assert(a.pixels_spec().contains(p));
            let j = choose|j: int| 0 <= j < a.pixels_spec().len() && a.pixels_spec()[j] == p;
            assert(a.pixels_spec()[j].offset.0 < a.width_spec());
        }
    }
    if b.wf() {
        assert forall|i: int| 0 <= i < a.pixels_spec().len() implies (
        #[trigger] a.pixels_spec()[i]).offset.0 < a.width_spec() && a.pixels_spec()[i].offset.1
            < a.height_spec() by {
            let p = a.pixels_spec()[i];
            assert(a.pixels_spec().contains(p));
            assert(a.pixels_spec().to_multiset().count(p) > 0);
            assert(b.pixels_spec().contains(p));
            let j = choose|j: int| 0 <= j < b.pixels_spec().len() && b.pixels_spec()[j] == p;
            assert(b.pixels_spec()[j].offset.0 < b.width_spec());
        }
    }
}

/// Well-formedness of a landmark depends only on its pixels and bounding box.
proof fn lemma_wf_same_fields(a: Landmark, b: Landmark)
    requires
        a.pixels_spec() == b.pixels_spec(),
        a.width_spec() == b.width_spec(),
        a.height_spec() == b.height_spec(),
    ensures
        a.wf() == b.wf(),
{
    if a.wf() {
        assert forall|i: int| 0 <= i < b.pixels_spec().len() implies (
        #[trigger] b.pixels_spec()[i]).offset.0 < b.width_spec() && b.pixels_spec()[i].offset.1
            < b.height_spec() by {
            assert(a.pixels_spec()[i] == b.pixels_spec()[i]);
        }
    }
    if b.wf() {
        assert forall|i: int| 0 <= i < a.pixels_spec().len() implies (
        #[trigger] a.pixels_spec()[i]).offset.0 < a.width_spec() && a.pixels_spec()[i].offset.1
            < a.height_spec() by {
            assert(a.pixels_spec()[i] == b.pixels_spec()[i]);
        }
    }
}

/// Recover column and row from a row-major cell position.
proof fn lemma_cell_decompose(w: int, x: int, y: int)
    requires
        0 <= x < w,
        0 <= y,
    ensures
        (y * w + x) % w == x,
        (y * w + x) / w == y,
{
    vstd::arithmetic::div_mod::lemma_fundamental_div_mod_converse(y * w + x, w, y, x);
}

} // verus!
