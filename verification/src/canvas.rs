//! The output pixel buffer: a rectangle of RGBA colours, row-major. The
//! renderer creates it filled with the background colour and mutates single
//! pixels.

use vstd::prelude::*;
use crate::color::Rgba8;

verus! {

use vstd::arithmetic::mul::{lemma_mul_is_distributive_add, lemma_mul_inequality,
    lemma_mul_is_commutative};

pub struct Canvas {
    pub width: u32,
    pub height: u32,
    pub pixels: Vec<Rgba8>,
}

impl Canvas {
    /// The buffer holds exactly one colour per coordinate pair.
    pub open spec fn wf(self) -> bool {
        self.pixels@.len() == (self.width as int) * (self.height as int)
    }

    /// The colour at column `x`, row `y`.
    pub open spec fn pixel(self, x: int, y: int) -> Rgba8 {
        self.pixels@[y * (self.width as int) + x]
    }

    pub open spec fn in_bounds(self, x: int, y: int) -> bool {
        0 <= x < self.width && 0 <= y < self.height
    }

    /// Both dimensions agree with `other`.
    pub open spec fn same_dims(self, other: Canvas) -> bool {
        self.width == other.width && self.height == other.height
    }

    proof fn lemma_index_in_range(self, x: int, y: int)
        requires
            self.wf(),
            self.in_bounds(x, y),
        ensures
            0 <= y * (self.width as int) + x < self.pixels@.len(),
            y * (self.width as int) + x <= (self.width as int) * (self.height as int) - 1,
    {
        let w = self.width as int;
        let h = self.height as int;
        lemma_mul_inequality(y + 1, h, w);
        lemma_mul_is_distributive_add(w, y, 1);
        lemma_mul_is_commutative(y + 1, w);
        lemma_mul_is_commutative(y, w);
        lemma_mul_is_commutative(h, w);
        assert(y * w + x >= 0) by (nonlinear_arith)
            requires
                y >= 0,
                w >= 0,
                x >= 0,
        ;
    }

    /// Distinct in-bounds coordinates land on distinct buffer slots.
    proof fn lemma_index_injective(self, x1: int, y1: int, x2: int, y2: int)
        requires
            self.wf(),
            self.in_bounds(x1, y1),
            self.in_bounds(x2, y2),
            (x1, y1) != (x2, y2),
        ensures
            y1 * (self.width as int) + x1 != y2 * (self.width as int) + x2,
    {
        let w = self.width as int;
        assert(y1 * w + x1 != y2 * w + x2) by (nonlinear_arith)
            requires
                0 <= x1 < w,
                0 <= x2 < w,
                y1 >= 0,
                y2 >= 0,
                x1 != x2 || y1 != y2,
        ;
    }

    /// A canvas of the given size with every pixel set to `fill`.
    pub fn new_filled(width: u32, height: u32, fill: Rgba8) -> (c: Canvas)
        requires
            (width as int) * (height as int) <= usize::MAX,
        ensures
            c.wf(),
            c.width == width,
            c.height == height,
            forall|x: int, y: int| c.in_bounds(x, y) ==> c.pixel(x, y) == fill,
    {
        let total: usize = (width as usize) * (height as usize);
        let mut pixels: Vec<Rgba8> = Vec::new();
        let mut i: usize = 0;
        while i < total
            invariant
                i <= total,
                pixels@.len() == i,
                forall|k: int| 0 <= k < i ==> pixels@[k] == fill,
            decreases total - i,
        {
            pixels.push(fill);
            i += 1;
        }
        let c = Canvas { width, height, pixels };
        proof {
            assert forall|x: int, y: int| c.in_bounds(x, y) implies c.pixel(x, y) == fill by {
                c.lemma_index_in_range(x, y);
            }
        }
        c
    }

    pub fn get_width(&self) -> (w: u32)
        ensures
            w == self.width,
    {
        self.width
    }

    pub fn get_height(&self) -> (h: u32)
        ensures
            h == self.height,
    {
        self.height
    }

    /// Reads one pixel.
    pub fn get_pixel(&self, x: u32, y: u32) -> (c: Rgba8)
        requires
            self.wf(),
            self.in_bounds(x as int, y as int),
        ensures
            c == self.pixel(x as int, y as int),
    {
        let n: usize = self.pixels.len();
        proof {
            self.lemma_index_in_range(x as int, y as int);
        }
        let idx: usize = (y as usize) * (self.width as usize) + (x as usize);
        assert(idx < n);
        self.pixels[idx]
    }

    /// Overwrites one pixel; every other pixel keeps its colour.
    pub fn put_pixel(&mut self, x: u32, y: u32, c: Rgba8)
        requires
            old(self).wf(),
            old(self).in_bounds(x as int, y as int),
        ensures
            final(self).wf(),
            final(self).same_dims(*old(self)),
            final(self).pixel(x as int, y as int) == c,
            forall|i: int, j: int|
                final(self).in_bounds(i, j) && (i, j) != (x as int, y as int)
                    ==> final(self).pixel(i, j) == old(self).pixel(i, j),
    {
        let n: usize = self.pixels.len();
        proof {
            self.lemma_index_in_range(x as int, y as int);
        }
        let idx: usize = (y as usize) * (self.width as usize) + (x as usize);
        assert(idx < n);
        self.pixels[idx] = c;
        proof {
            assert forall|i: int, j: int|
                self.in_bounds(i, j) && (i, j) != (x as int, y as int) implies self.pixel(i, j)
                == old(self).pixel(i, j) by {
                self.lemma_index_in_range(i, j);
                self.lemma_index_injective(i, j, x as int, y as int);
            }
        }
    }
}

} // verus!
