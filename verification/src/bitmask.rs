//! A bit-packed boolean grid over all cells, with O(1) set and get.

use vstd::prelude::*;

use crate::config::GameConfig;
use crate::point::{in_bounds, Point};
use vstd::arithmetic::div_mod::{
    lemma_div_decreases, lemma_div_is_ordered, lemma_fundamental_div_mod,
    lemma_fundamental_div_mod_converse,
};
use vstd::arithmetic::mul::lemma_mul_strict_inequality;

verus! {

/// True when bit `i` of byte `b` is set.
pub open spec fn nth_bit(b: u8, i: u8) -> bool {
    (b >> i) & 1 == 1
}

/// Setting bit `i` of a byte sets exactly that bit and leaves the rest alone.
proof fn lemma_bit_or(b: u8, i: u8, j: u8)
    by (bit_vector)
    requires
        i < 8,
        j < 8,
    ensures
        nth_bit(b | (1u8 << i), j) == (i == j || nth_bit(b, j)),
{
}

/// Clearing bit `i` of a byte clears exactly that bit and leaves the rest alone.
proof fn lemma_bit_and_not(b: u8, i: u8, j: u8)
    by (bit_vector)
    requires
        i < 8,
        j < 8,
    ensures
        nth_bit(b & !(1u8 << i), j) == (i != j && nth_bit(b, j)),
{
}

/// Masking with a single-bit mask tests exactly that bit.
proof fn lemma_bit_test(b: u8, i: u8)
    by (bit_vector)
    requires
        i < 8,
    ensures
        (b & (1u8 << i) != 0) == nth_bit(b, i),
{
}

/// The linear cell index of an in-bounds point lies inside the grid's cell range.
proof fn lemma_cell_index_in_range(p: Point, w: int, h: int)
    by (nonlinear_arith)
    requires
        1 <= w,
        1 <= h,
        in_bounds(p, w, h),
    ensures
        0 <= p.y * w + p.x < w * h,
{
}

/// Two in-bounds points with the same linear cell index are the same point.
proof fn lemma_cell_index_injective(p: Point, q: Point, w: int, h: int)
    requires
        1 <= w,
        1 <= h,
        in_bounds(p, w, h),
        in_bounds(q, w, h),
        p.y * w + p.x == q.y * w + q.x,
    ensures
        p == q,
{
    let idx = p.y * w + p.x;
    lemma_fundamental_div_mod_converse(idx, w, p.y as int, p.x as int);
    lemma_fundamental_div_mod_converse(idx, w, q.y as int, q.x as int);
    assert(p.x as int == q.x as int && p.y as int == q.y as int);
    assert(p == q);
}

/// A bitmask to store the state of each cell in the game.
///
/// Used for collision detection: one bit per cell, at linear index
/// `y * width + x`, packed eight cells to a byte.
pub struct Bitmask {
    mask: Vec<u8>,
    width: usize,
    height: usize,
}

impl Bitmask {
    /// Grid width this mask was built for.
    pub closed spec fn w(&self) -> int {
        self.width as int
    }

    /// Grid height this mask was built for.
    pub closed spec fn h(&self) -> int {
        self.height as int
    }

    /// Structural well-formedness: sane dimensions and a byte array
    /// large enough for one bit per cell.
    pub closed spec fn wf(&self) -> bool {
        &&& 1 <= self.width <= i32::MAX
        &&& 1 <= self.height <= i32::MAX
        &&& self.width * self.height <= usize::MAX
        &&& self.mask@.len() == (self.width * self.height) as int / 8 + 1
    }

    /// The bit stored for cell `p`.
    pub closed spec fn bit_at(&self, p: Point) -> bool {
        let idx = p.y * self.w() + p.x;
        nth_bit(self.mask@[idx / 8], (idx % 8) as u8)
    }

    /// Create a new bitmask with the given configuration; every bit starts clear.
    pub fn new(config: &GameConfig) -> (r: Bitmask)
        requires
            config.valid(),
        ensures
            r.wf(),
            r.w() == config.screen_width,
            r.h() == config.screen_height,
            forall|q: Point| in_bounds(q, r.w(), r.h()) ==> !r.bit_at(q),
    {
        let width = config.screen_width;
        let height = config.screen_height;

        let cell_count = width * height;
        proof {
            assert(cell_count >> 3 == cell_count / 8) by (bit_vector);
            lemma_div_is_ordered(cell_count as int, usize::MAX as int, 8);
            lemma_div_decreases(usize::MAX as int, 8);
        }
        let n = (cell_count >> 3) + 1;
        let mut mask: Vec<u8> = Vec::new();
        let mut i: usize = 0;
        while i < n
            invariant
                i <= n,
                mask@.len() == i,
                forall|k: int| 0 <= k < i ==> mask@[k] == 0u8,
            decreases n - i,
        {
            mask.push(0);
            i = i + 1;
        }
        let r = Bitmask { mask, width, height };
        proof {
            assert forall|q: Point| in_bounds(q, r.w(), r.h()) implies !r.bit_at(q) by {
                lemma_cell_index_in_range(q, r.w(), r.h());
                let idx = q.y * r.w() + q.x;
                lemma_div_is_ordered(idx, r.w() * r.h(), 8);
                assert(r.mask@[idx / 8] == 0u8);
                let bi = (idx % 8) as u8;
                assert(!nth_bit(0u8, bi)) by (bit_vector);
            }
        }
        r
    }

    /// Set the value of the cell at the given point.
    pub fn set(&mut self, point: Point, value: bool)
        requires
            old(self).wf(),
            in_bounds(point, old(self).w(), old(self).h()),
        ensures
            final(self).wf(),
            final(self).w() == old(self).w(),
            final(self).h() == old(self).h(),
            forall|q: Point| in_bounds(q, old(self).w(), old(self).h())
                ==> #[trigger] final(self).bit_at(q) == (if q == point {
                    value
                } else {
                    old(self).bit_at(q)
                }),
    {
        proof {
            lemma_cell_index_in_range(point, self.w(), self.h());
            lemma_mul_strict_inequality(point.y as int, self.height as int, self.width as int);
        }
        let idx = (point.y as usize) * self.width + (point.x as usize);
        proof {
            assert(idx >> 3 == idx / 8) by (bit_vector);
            assert(idx & 7 == idx % 8 && idx & 7 < 8) by (bit_vector);
            lemma_div_is_ordered(idx as int, self.w() * self.h(), 8);
        }
        let byte_idx = idx >> 3;
        let bit_idx = (idx & 7) as u8;
        let b = self.mask[byte_idx];
        if value {
            self.mask[byte_idx] = b | (1u8 << bit_idx);
        } else {
            self.mask[byte_idx] = b & !(1u8 << bit_idx);
        }
        proof {
            let ow = old(self).w();
            let oh = old(self).h();
            let pidx = point.y * ow + point.x;
            assert forall|q: Point| in_bounds(q, ow, oh) implies #[trigger] self.bit_at(q) == (
            if q == point {
                value
            } else {
                old(self).bit_at(q)
            }) by {
                lemma_cell_index_in_range(q, ow, oh);
                let qidx = q.y * ow + q.x;
                lemma_div_is_ordered(qidx, ow * oh, 8);
                lemma_fundamental_div_mod(pidx, 8);
                lemma_fundamental_div_mod(qidx, 8);
                if q == point {
                    if value {
                        lemma_bit_or(b, bit_idx, bit_idx);
                    } else {
                        lemma_bit_and_not(b, bit_idx, bit_idx);
                    }
                } else {
                    // distinct cells have distinct linear indices
                    if qidx == pidx {
                        lemma_cell_index_injective(q, point, ow, oh);
                    }
                    assert(qidx != pidx);
                    if qidx / 8 == pidx / 8 {
                        assert((qidx % 8) as u8 != bit_idx);
                        if value {
                            lemma_bit_or(b, bit_idx, (qidx % 8) as u8);
                        } else {
                            lemma_bit_and_not(b, bit_idx, (qidx % 8) as u8);
                        }
                    } else {
                        assert(self.mask@[qidx / 8] == old(self).mask@[qidx / 8]);
                    }
                }
            }
        }
    }

    /// Get the value of the cell at the given point.
    pub fn get(&self, point: Point) -> (r: bool)
        requires
            self.wf(),
            in_bounds(point, self.w(), self.h()),
        ensures
            r == self.bit_at(point),
    {
        proof {
            lemma_cell_index_in_range(point, self.w(), self.h());
            lemma_mul_strict_inequality(point.y as int, self.height as int, self.width as int);
        }
        let idx = (point.y as usize) * self.width + (point.x as usize);
        proof {
            assert(idx >> 3 == idx / 8) by (bit_vector);
            assert(idx & 7 == idx % 8 && idx & 7 < 8) by (bit_vector);
            lemma_div_is_ordered(idx as int, self.w() * self.h(), 8);
        }
        let byte_idx = idx >> 3;
        let bit_idx = (idx & 7) as u8;
        proof {
            lemma_bit_test(self.mask@[byte_idx as int], bit_idx);
        }
        (self.mask[byte_idx] & (1u8 << bit_idx)) != 0
    }
}

} // verus!
