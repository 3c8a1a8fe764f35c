use vstd::prelude::*;

verus! {

/// A `width`×`height` grid of pixels, addressed by column `x` and row `y`.
///
/// The pixel type is generic: the canvas only stores and hands back values.
pub struct Canvas<P> {
    width: usize,
    height: usize,
    /// The pixels row by row: `(x, y)` is at `y * width + x`.
    pixels: Vec<P>,
}

proof fn lemma_cell_in_grid(x: int, y: int, w: int, h: int)
    requires
        0 <= x < w,
        0 <= y < h,
    ensures
        0 <= y * w + x < w * h,
        y * w + w <= w * h,
{
    assert(y * w + x < w * h) by (nonlinear_arith)
        requires
            0 <= x < w,
            0 <= y < h,
    ;
    assert(y * w + w <= w * h) by (nonlinear_arith)
        requires
            0 <= x < w,
            0 <= y < h,
    ;
    assert(0 <= y * w) by (nonlinear_arith)
        requires
            0 <= x < w,
            0 <= y < h,
    ;
}

impl<P> Canvas<P> {
    /// The pixel store holds exactly one pixel per cell.
    pub closed spec fn wf(&self) -> bool {
        &&& self.width * self.height <= usize::MAX
        &&& self.pixels@.len() == self.width * self.height
    }

    /// The number of columns.
    pub closed spec fn spec_width(&self) -> nat {
        self.width as nat
    }

    /// The number of rows.
    pub closed spec fn spec_height(&self) -> nat {
        self.height as nat
    }

    /// The pixel in column `x` of row `y`.
    pub closed spec fn spec_pixel(&self, x: int, y: int) -> P {
        self.pixels@[y * self.width + x]
    }

    /// The canvas as its rows, top to bottom, each from left to right.
    pub open spec fn rows(&self) -> Seq<Seq<P>> {
        Seq::new(
            self.spec_height(),
            |y: int| Seq::new(self.spec_width(), |x: int| self.spec_pixel(x, y)),
        )
    }

    /// The number of columns.
    pub fn width(&self) -> (r: usize)
        ensures
            r == self.spec_width(),
    {
        self.width
    }

    /// The number of rows.
    pub fn height(&self) -> (r: usize)
        ensures
            r == self.spec_height(),
    {
        self.height
    }
}

impl<P: Copy> Canvas<P> {
    /// A canvas of `width` columns and `height` rows, every pixel `blank`.
    pub fn new(width: usize, height: usize, blank: P) -> (r: Self)
        requires
            width * height <= usize::MAX,
        ensures
            r.wf(),
            r.spec_width() == width,
            r.spec_height() == height,
            forall|x: int, y: int|
                0 <= x < width && 0 <= y < height ==> #[trigger] r.spec_pixel(x, y) == blank,
    {
        let n: usize = width * height;
        let mut pixels: Vec<P> = Vec::new();
        let mut i: usize = 0;
        while i < n
            invariant
                i <= n,
                pixels@.len() == i,
                forall|k: int| 0 <= k < i ==> #[trigger] pixels@[k] == blank,
            decreases n - i,
        {
            pixels.push(blank);
            i += 1;
        }
        let r = Canvas { width, height, pixels };
        assert forall|x: int, y: int|
            0 <= x < width && 0 <= y < height implies #[trigger] r.spec_pixel(x, y) == blank by {
            lemma_cell_in_grid(x, y, width as int, height as int);
        }
        r
    }

    /// The pixel in column `x` of row `y`.
    pub fn pixel_at(&self, x: usize, y: usize) -> (r: P)
        requires
            self.wf(),
            x < self.spec_width(),
            y < self.spec_height(),
        ensures
            r == self.spec_pixel(x as int, y as int),
    {
        proof {
            lemma_cell_in_grid(x as int, y as int, self.width as int, self.height as int);
        }
        self.pixels[y * self.width + x]
    }

    /// Sets the pixel in column `x` of row `y` to `color`; every other pixel
    /// keeps its value.
    pub fn write_pixel(&mut self, x: usize, y: usize, color: &P)
        requires
            old(self).wf(),
            x < old(self).spec_width(),
            y < old(self).spec_height(),
        ensures
            final(self).wf(),
            final(self).spec_width() == old(self).spec_width(),
            final(self).spec_height() == old(self).spec_height(),
            final(self).spec_pixel(x as int, y as int) == *color,
            forall|i: int, j: int|
                0 <= i < old(self).spec_width() && 0 <= j < old(self).spec_height() && (i != x
                    || j != y) ==> #[trigger] final(self).spec_pixel(i, j) == old(self).spec_pixel(
                    i,
                    j,
                ),
    {
        proof {
            lemma_cell_in_grid(x as int, y as int, self.width as int, self.height as int);
        }
        let k = y * self.width + x;
        self.pixels.set(k, *color);
        assert forall|i: int, j: int|
            0 <= i < old(self).spec_width() && 0 <= j < old(self).spec_height() && (i != x || j
                != y) implies #[trigger] self.spec_pixel(i, j) == old(self).spec_pixel(i, j) by {
            lemma_cell_in_grid(i, j, self.width as int, self.height as int);
            if j * self.width + i == k {
                lemma_same_cell(i, j, x as int, y as int, self.width as int);
            }
        }
    }
}

proof fn lemma_same_cell(x1: int, y1: int, x2: int, y2: int, w: int)
    requires
        0 <= x1 < w,
        0 <= x2 < w,
        0 <= y1,
        0 <= y2,
        y1 * w + x1 == y2 * w + x2,
    ensures
        x1 == x2,
        y1 == y2,
{
    assert(y1 == y2) by (nonlinear_arith)
        requires
            0 <= x1 < w,
            0 <= x2 < w,
            0 <= y1,
            0 <= y2,
            y1 * w + x1 == y2 * w + x2,
    ;
}

} // verus!
