use vstd::prelude::*;

verus! {

/// A rectangular image stored row by row, `width` pixels per row.
pub struct Image<T> {
    buf: Vec<T>,
    width: usize,
    height: usize,
}

/// Previous, current and next pixel (or row).
#[derive(Copy, Clone, Debug, PartialEq, Eq)]
pub struct Triple<T> {
    pub prev: T,
    pub curr: T,
    pub next: T,
}

impl<T> Triple<T> {
    pub fn new(prev: T, curr: T, next: T) -> (t: Self)
        ensures
            t == (Triple { prev, curr, next }),
    {
        Triple { prev, curr, next }
    }
}

/// Clamps a coordinate to `0..n` (for `n > 0`).
pub open spec fn clamp(k: int, n: int) -> int {
    if k < 0 {
        0
    } else if k >= n {
        n - 1
    } else {
        k
    }
}

/// `x < w` and `y < h` place `(x, y)` inside a `w * h` buffer.
pub proof fn lemma_index_in_bounds(x: int, y: int, w: int, h: int)
    requires
        0 <= x < w,
        0 <= y < h,
    ensures
        0 <= y * w + x < w * h,
        y * w + x + 1 <= w * h,
{
    assert(0 <= y * w + x < w * h) by (nonlinear_arith)
        requires
            0 <= x < w,
            0 <= y < h,
    ;
}

/// Row-major positions of distinct pixels are distinct.
pub proof fn lemma_index_injective(x1: int, y1: int, x2: int, y2: int, w: int)
    requires
        0 <= x1 < w,
        0 <= x2 < w,
        0 <= y1,
        0 <= y2,
        y1 * w + x1 == y2 * w + x2,
    ensures
        x1 == x2,
        y1 == y2,
{
    if y1 < y2 {
        assert(y1 * w + x1 < y2 * w + x2) by (nonlinear_arith)
            requires
                0 <= x1 < w,
                0 <= x2,
                y1 < y2,
        ;
    } else if y2 < y1 {
        assert(y2 * w + x2 < y1 * w + x1) by (nonlinear_arith)
            requires
                0 <= x2 < w,
                0 <= x1,
                y2 < y1,
        ;
    }
}

impl<T> Image<T> {
    /// The pixels, row after row.
    pub closed spec fn pixels(&self) -> Seq<T> {
        self.buf@
    }

    pub closed spec fn w(&self) -> nat {
        self.width as nat
    }

    pub closed spec fn h(&self) -> nat {
        self.height as nat
    }

    /// The buffer holds exactly `width * height` pixels.
    pub open spec fn wf(&self) -> bool {
        &&& self.pixels().len() == self.w() * self.h()
        &&& self.w() <= usize::MAX
        &&& self.h() <= usize::MAX
    }

    /// The pixel in column `x` of row `y`.
    pub open spec fn at(&self, x: int, y: int) -> T {
        self.pixels()[y * self.w() + x]
    }

    /// The pixel at a position clamped to the image, as neighbourhood lookups see it.
    pub open spec fn at_clamped(&self, x: int, y: int) -> T {
        self.at(clamp(x, self.w() as int), clamp(y, self.h() as int))
    }

    /// The three pixels of row `row` around column `x`, with columns clamped to the image.
    pub open spec fn row_triple(&self, x: int, row: int) -> Triple<T> {
        Triple {
            prev: self.at_clamped(x - 1, row),
            curr: self.at_clamped(x, row),
            next: self.at_clamped(x + 1, row),
        }
    }

    /// The row above `y` as a scan that starts at row `top` sees it: the first row
    /// of the scan serves as its own upper neighbour.
    pub open spec fn row_above(top: int, y: int) -> int {
        if y == top {
            top
        } else {
            y - 1
        }
    }

    /// The 3x3 neighbourhood of `(x, y)` in a scan starting at row `top`:
    /// rows above, at and below `y`, each as a triple of columns.
    pub open spec fn neighbourhood(&self, top: int, x: int, y: int) -> (Triple<T>, Triple<T>, Triple<T>) {
        (
            self.row_triple(x, Self::row_above(top, y)),
            self.row_triple(x, y),
            self.row_triple(x, y + 1),
        )
    }

    pub fn new(buf: Vec<T>, width: usize, height: usize) -> (img: Self)
        requires
            buf.len() == width * height,
        ensures
            img.wf(),
            img.pixels() == buf@,
            img.w() == width,
            img.h() == height,
    {
        Image { buf, width, height }
    }

    pub fn width(&self) -> (w: usize)
        ensures
            w == self.w(),
    {
        self.width
    }

    pub fn height(&self) -> (h: usize)
        ensures
            h == self.h(),
    {
        self.height
    }

    /// The pixels, row after row.
    pub fn buf(&self) -> (b: &Vec<T>)
        ensures
            b@ == self.pixels(),
    {
        &self.buf
    }

    pub fn into_buf(self) -> (b: Vec<T>)
        ensures
            b@ == self.pixels(),
    {
        self.buf
    }

    pub fn get(&self, x: usize, y: usize) -> (p: T) where T: Copy
        requires
            self.wf(),
            x < self.w(),
            y < self.h(),
        ensures
            p == self.at(x as int, y as int),
    {
        proof {
            lemma_index_in_bounds(x as int, y as int, self.w() as int, self.h() as int);
        }
        let n = self.buf.len();
        assert(y * self.width + x < n);
        self.buf[y * self.width + x]
    }

    pub fn set(&mut self, x: usize, y: usize, p: T)
        requires
            old(self).wf(),
            x < old(self).w(),
            y < old(self).h(),
        ensures
            final(self).wf(),
            final(self).w() == old(self).w(),
            final(self).h() == old(self).h(),
            final(self).pixels() == old(self).pixels().update(y * old(self).w() + x, p),
    {
        proof {
            lemma_index_in_bounds(x as int, y as int, self.w() as int, self.h() as int);
        }
        let n = self.buf.len();
        assert(y * self.width + x < n);
        let i = y * self.width + x;
        self.buf.set(i, p);
    }

    /// The pixel at `(x, y)` clamped to the image.
    pub fn get_clamped(&self, x: usize, y: usize) -> (p: T) where T: Copy
        requires
            self.wf(),
            self.w() > 0,
            self.h() > 0,
        ensures
            p == self.at_clamped(x as int, y as int),
    {
        let cx = if x >= self.width { self.width - 1 } else { x };
        let cy = if y >= self.height { self.height - 1 } else { y };
        self.get(cx, cy)
    }

    /// The 3x3 neighbourhood of `(x, y)` in a scan that starts at row `top`
    /// (see `neighbourhood`).
    pub fn neighbours(&self, top: usize, x: usize, y: usize) -> (n: (Triple<T>, Triple<T>, Triple<T>)) where T: Copy
        requires
            self.wf(),
            self.w() > 0,
            self.h() > 0,
            top <= y,
            x < usize::MAX,
            y < usize::MAX,
        ensures
            n == self.neighbourhood(top as int, x as int, y as int),
    {
        let above = if y == top { top } else { y - 1 };
        let xl = if x == 0 { 0 } else { x - 1 };
        (
            Triple::new(self.get_clamped(xl, above), self.get_clamped(x, above), self.get_clamped(x + 1, above)),
            Triple::new(self.get_clamped(xl, y), self.get_clamped(x, y), self.get_clamped(x + 1, y)),
            Triple::new(self.get_clamped(xl, y + 1), self.get_clamped(x, y + 1), self.get_clamped(x + 1, y + 1)),
        )
    }

    /// A copy of the `width * height` rectangle whose top-left corner is `(left, top)`.
    pub fn sub_image(&self, left: usize, top: usize, width: usize, height: usize) -> (s: Image<T>) where T: Copy
        requires
            self.wf(),
            left + width <= self.w(),
            top + height <= self.h(),
        ensures
            s.wf(),
            s.w() == width,
            s.h() == height,
            forall|x: int, y: int|
                0 <= x < width && 0 <= y < height ==> #[trigger] s.at(x, y) == self.at(left + x, top + y),
    {
        let mut buf: Vec<T> = Vec::new();
        let mut y: usize = 0;
        while y < height
            invariant
                self.wf(),
                left + width <= self.w(),
                top + height <= self.h(),
                y <= height,
                buf.len() == y * width,
                forall|i: int, j: int|
                    0 <= i < width && 0 <= j < y ==> #[trigger] buf@[j * width + i] == self.at(left + i, top + j),
            decreases height - y,
        {
            let mut x: usize = 0;
            while x < width
                invariant
                    self.wf(),
                    left + width <= self.w(),
                    top + height <= self.h(),
                    y < height,
                    x <= width,
                    buf.len() == y * width + x,
                    forall|i: int, j: int|
                        0 <= i < width && 0 <= j < y ==> #[trigger] buf@[j * width + i] == self.at(left + i, top + j),
                    forall|i: int| 0 <= i < x ==> #[trigger] buf@[y * width + i] == self.at(left + i, top + y),
                decreases width - x,
            {
                let p = self.get(left + x, top + y);
                let ghost before = buf@;
                buf.push(p);
                proof {
                    assert forall|i: int, j: int|
                        0 <= i < width && 0 <= j < y implies #[trigger] buf@[j * width + i] == self.at(left + i, top + j) by {
                        lemma_index_in_bounds(i, j, width as int, y as int);
                        assert(buf@[j * width + i] == before[j * width + i]);
                    }
                }
                x += 1;
            }
            proof {
                assert forall|i: int, j: int|
                    0 <= i < width && 0 <= j < y + 1 implies #[trigger] buf@[j * width + i] == self.at(left + i, top + j) by {
                    if j == y {
                    } else {
                        lemma_index_in_bounds(i, j, width as int, y as int);
                    }
                }
                assert((y + 1) * width == y * width + width) by (nonlinear_arith);
            }
            y += 1;
        }
        assert(height * width == width * height) by (nonlinear_arith);
        Image { buf, width, height }
    }
}

} // verus!
