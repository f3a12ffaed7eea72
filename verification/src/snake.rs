//! The snake itself: a fixed-capacity body queue with O(1) growth and
//! advance, plus the per-step logic for wraparound movement, self-collision
//! and food consumption.

use vstd::prelude::*;

use crate::bitmask::Bitmask;
use crate::config::GameConfig;
use crate::point::{in_bounds, is_cardinal, neg_point, Point};
use vstd::arithmetic::div_mod::{
    lemma_add_mod_noop_right, lemma_mod_add_multiples_vanish, lemma_mod_division_less_than_divisor,
    lemma_mod_multiples_vanish, lemma_mod_self_0, lemma_small_mod,
};

verus! {

/// The cell reached from `p` by one move in direction `d` on a toroidal
/// `w` by `h` grid: each axis is reduced modulo its own dimension, so
/// moving off one edge reappears on the opposite edge.
pub open spec fn wrapped(p: Point, d: Point, w: int, h: int) -> Point {
    Point { x: ((p.x + d.x) % w) as i32, y: ((p.y + d.y) % h) as i32 }
}

/// Reduce a coordinate that is at most one step outside `[0, limit)` back
/// into range, realizing toroidal wraparound on one axis.
fn wrap_coord(v: i32, limit: usize) -> (r: i32)
    requires
        1 <= limit <= i32::MAX,
        -1 <= v <= limit,
    ensures
        r == (v as int) % (limit as int),
        0 <= r < limit,
{
    let lim = limit as i32;
    if v < 0 {
        proof {
            lemma_mod_add_multiples_vanish(v as int, lim as int);
            lemma_small_mod((v + lim) as nat, lim as nat);
        }
        v + lim
    } else if v >= lim {
        proof {
            lemma_mod_self_0(lim as int);
        }
        v - lim
    } else {
        proof {
            lemma_small_mod(v as nat, lim as nat);
        }
        v
    }
}

/// Represents a cell in the snake. Works similarly to a linked list node,
/// but linked by slot index instead of by pointer.
#[derive(Clone, Copy)]
struct Cell {
    pos: Point,
    next: usize,
    idx: usize,
}

/// A buffer to store the cells of the snake, with a head and a tail pointer.
/// This is used to avoid allocating and deallocating memory for each cell:
/// advancing reuses the tail slot as the new head.
pub struct CellBuf {
    buf: Vec<Cell>,
    head: usize,
    tail: usize,
    order: Ghost<Seq<int>>,
}

impl CellBuf {
    /// The slot indices of the live segments, oldest (tail) first,
    /// newest (head) last.
    spec fn ord(&self) -> Seq<int> {
        self.order@
    }

    /// Structural well-formedness of the index-linked queue: the recorded
    /// order visits every slot exactly once, the head and tail pointers agree
    /// with it, and the `next` links form a single cycle in age order.
    pub closed spec fn wf(&self) -> bool {
        let n = self.ord().len() as int;
        &&& self.buf@.len() >= 1
        &&& self.ord().len() == self.buf@.len()
        &&& forall|i: int| 0 <= i < n ==> 0 <= #[trigger] self.ord()[i] < self.buf@.len()
        &&& forall|i: int, j: int| 0 <= i < j < n ==> self.ord()[i] != self.ord()[j]
        &&& self.tail == self.ord()[0]
        &&& self.head == self.ord()[n - 1]
        &&& forall|i: int| 0 <= i < n - 1 ==> self.buf@[#[trigger] self.ord()[i]].next == self.ord()[i + 1]
        &&& self.buf@[self.ord()[n - 1]].next == self.ord()[0]
        &&& forall|i: int| 0 <= i < self.buf@.len() ==> (#[trigger] self.buf@[i].idx) == i
    }

    /// The body positions, oldest (tail) first, newest (head) last.
    pub closed spec fn positions(&self) -> Seq<Point> {
        self.ord().map_values(|j: int| self.buf@[j].pos)
    }

    /// The number of live segments.
    pub fn len(&self) -> (n: usize)
        requires
            self.wf(),
        ensures
            n == self.positions().len(),
    {
        self.buf.len()
    }
}

/// Used to communicate changes in the snake to the renderer.
#[derive(Debug, PartialEq, Clone, Copy)]
pub struct SnakeChange {
    pub cell_added: Point,
    pub cell_removed: Option<Point>,
}

/// Used to communicate the result of a simulation step to the game loop.
#[derive(Debug, PartialEq)]
pub enum SnakeStepResult {
    Advanced(SnakeChange),
    GameOver,
    AppleEaten(SnakeChange),
}

/// Represents the snake in the game.
pub struct Snake {
    body: CellBuf,
    mask: Bitmask,
    screen_width: usize,
    screen_height: usize,
    direction: Point,
}

impl Snake {
    /// Grid width the snake moves on.
    pub closed spec fn grid_w(&self) -> int {
        self.screen_width as int
    }

    /// Grid height the snake moves on.
    pub closed spec fn grid_h(&self) -> int {
        self.screen_height as int
    }

    /// The current movement direction.
    pub closed spec fn dir(&self) -> Point {
        self.direction
    }

    /// The body positions, oldest (tail) first, newest (head) last.
    pub closed spec fn body_seq(&self) -> Seq<Point> {
        self.body.positions()
    }

    /// The occupancy bit recorded for cell `p`.
    pub closed spec fn mask_bit(&self, p: Point) -> bool {
        self.mask.bit_at(p)
    }

    /// The newest segment's position.
    pub open spec fn head_pos(&self) -> Point {
        self.body_seq().last()
    }

    /// The oldest segment's position.
    pub open spec fn tail_pos(&self) -> Point {
        self.body_seq()[0]
    }

    /// Well-formedness of the whole snake: a well-formed body queue and
    /// occupancy mask over the same grid, a cardinal movement direction,
    /// all segments inside the grid and pairwise distinct, and — the central
    /// cross-structure invariant — the occupancy bits set are exactly the
    /// cells held by live body segments.
    pub closed spec fn wf(&self) -> bool {
        &&& self.body.wf()
        &&& self.mask.wf()
        &&& 1 <= self.screen_width <= i32::MAX
        &&& 1 <= self.screen_height <= i32::MAX
        &&& self.screen_width * self.screen_height <= usize::MAX
        &&& self.mask.w() == self.grid_w()
        &&& self.mask.h() == self.grid_h()
        &&& is_cardinal(self.direction)
        &&& forall|i: int|
            0 <= i < self.body_seq().len() ==> in_bounds(
                #[trigger] self.body_seq()[i],
                self.grid_w(),
                self.grid_h(),
            )
        &&& forall|i: int, j: int|
            0 <= i < j < self.body_seq().len() ==> self.body_seq()[i] != self.body_seq()[j]
        &&& forall|p: Point|
            in_bounds(p, self.grid_w(), self.grid_h()) ==> (#[trigger] self.mask_bit(p)
                <==> self.body_seq().contains(p))
    }

    /// Create a new snake at the given position.
    /// Snake starts off with length 1.
    pub fn new(pos: Point, config: &GameConfig) -> (s: Snake)
        requires
            config.valid(),
            in_bounds(pos, config.screen_width as int, config.screen_height as int),
        ensures
            s.wf(),
            s.grid_w() == config.screen_width,
            s.grid_h() == config.screen_height,
            s.body_seq() == seq![pos],
            s.dir() == (Point { x: 1i32, y: 0i32 }),
    {
        let cell_count = config.total_cells();
        let mut buf: Vec<Cell> = Vec::with_capacity(cell_count);
        buf.push(Cell { pos, next: 0, idx: 0 });
        let ghost initial_order: Seq<int> = seq![0int];
        let body = CellBuf { buf, head: 0, tail: 0, order: Ghost(initial_order) };

        let mut mask = Bitmask::new(config);
        mask.set(pos, true);

        let s = Snake {
            body,
            mask,
            screen_width: config.screen_width,
            screen_height: config.screen_height,
            direction: Point::new(1, 0),
        };
        proof {
            assert(s.body_seq() =~= seq![pos]);
            assert forall|p: Point| in_bounds(p, s.grid_w(), s.grid_h()) implies (
            #[trigger] s.mask_bit(p) <==> s.body_seq().contains(p)) by {
                assert(s.mask_bit(p) == s.mask.bit_at(p));
                if p == pos {
                    assert(s.body_seq()[0] == p);
                    assert(s.body_seq().contains(p));
                } else {
                    if s.body_seq().contains(p) {
                        let i = choose|i: int|
                            0 <= i < s.body_seq().len() && s.body_seq()[i] == p;
                        assert(s.body_seq()[i] == p);
                        assert(false);
                    }
                }
            }
        }
        s
    }

    /// Check if the snake overlaps with the given position.
    pub fn overlaps(&self, pos: Point) -> (r: bool)
        requires
            self.wf(),
            in_bounds(pos, self.grid_w(), self.grid_h()),
        ensures
            r == self.body_seq().contains(pos),
    {
        let r = self.mask.get(pos);
        proof {
            assert(r == self.mask_bit(pos));
        }
        r
    }

    /// Set the direction of the snake. The snake cannot move in the opposite
    /// direction of its current direction; such an update is rejected and
    /// the direction is left unchanged.
    pub fn set_direction(&mut self, direction: Point)
        requires
            old(self).wf(),
            is_cardinal(direction),
        ensures
            final(self).wf(),
            final(self).dir() == (if direction == neg_point(old(self).dir()) {
                old(self).dir()
            } else {
                direction
            }),
            final(self).body_seq() == old(self).body_seq(),
            final(self).grid_w() == old(self).grid_w(),
            final(self).grid_h() == old(self).grid_h(),
            forall|p: Point| final(self).mask_bit(p) == old(self).mask_bit(p),
    {
        let nd = direction.negated();
        if !(self.direction.x == nd.x && self.direction.y == nd.y) {
            self.direction = direction;
        }
        proof {
            assert(self.body == old(self).body);
            assert(self.body_seq() == old(self).body_seq());
            assert(self.mask == old(self).mask);
            assert forall|p: Point| self.mask_bit(p) == old(self).mask_bit(p) by {
                assert(self.mask.bit_at(p) == old(self).mask.bit_at(p));
            }
        }
    }

    /// Move the snake forward by one cell: the tail slot is reused as the
    /// new head, so nothing is allocated or freed. The position of the new
    /// cell is passed as an argument to avoid recalculation.
    fn move_forward(&mut self, pos: Point)
        requires
            old(self).wf(),
            in_bounds(pos, old(self).grid_w(), old(self).grid_h()),
            !old(self).body_seq().contains(pos),
        ensures
            final(self).wf(),
            final(self).grid_w() == old(self).grid_w(),
            final(self).grid_h() == old(self).grid_h(),
            final(self).dir() == old(self).dir(),
            final(self).body_seq() == old(self).body_seq().drop_first().push(pos),
    {
        let ghost oord = old(self).body.ord();
        let ghost obuf = old(self).body.buf@;
        let ghost obody = old(self).body_seq();
        let ghost n = oord.len() as int;

        let t = self.body.tail;
        proof {
            assert(oord[0] == t);
            assert(obody[0] == obuf[t as int].pos);
        }
        let old_tail_pos = self.body.buf[t].pos;
        proof {
            assert(in_bounds(old_tail_pos, old(self).grid_w(), old(self).grid_h()));
            // pos is no live segment, so it differs from the old tail cell
            assert(old_tail_pos != pos) by {
                assert(obody.contains(obody[0]));
            }
        }
        self.mask.set(old_tail_pos, false);
        self.mask.set(pos, true);
        let c = self.body.buf[t];
        self.body.buf[t] = Cell { pos, next: c.next, idx: c.idx };
        self.body.head = t;
        self.body.tail = c.next;
        proof {
            self.body.order@ = oord.drop_first().push(t as int);

            let nord = self.body.ord();
            let nbuf = self.body.buf@;
            let nbody = self.body_seq();
            let ti = t as int;

            // frame facts about the slot array: only the tail slot's
            // position changed, no link or index changed
            assert(nbuf.len() == obuf.len());
            assert(nbuf[ti].pos == pos && nbuf[ti].next == obuf[ti].next && nbuf[ti].idx
                == obuf[ti].idx);
            assert(forall|k: int| 0 <= k < nbuf.len() && k != ti ==> nbuf[k] == obuf[k]);

            // the new order is the old one rotated by one
            assert(nord.len() == n);
            assert(nord[n - 1] == ti);
            assert(forall|i: int| 0 <= i < n - 1 ==> nord[i] == oord[i + 1]);

            // the queue is again a well-formed cycle
            assert forall|i: int| 0 <= i < n implies 0 <= #[trigger] nord[i] < nbuf.len() by {
                if i < n - 1 {
                    assert(nord[i] == oord[i + 1]);
                }
            }
            assert forall|i: int, j: int| 0 <= i < j < n implies nord[i] != nord[j] by {
                if j == n - 1 {
                    assert(nord[i] == oord[i + 1] && nord[j] == oord[0]);
                } else {
                    assert(nord[i] == oord[i + 1] && nord[j] == oord[j + 1]);
                }
            }
            assert forall|i: int| 0 <= i < n - 1 implies nbuf[#[trigger] nord[i]].next == nord[i
                + 1] by {
                if i < n - 2 {
                    assert(nord[i] == oord[i + 1] && nord[i + 1] == oord[i + 2]);
                    assert(oord[i + 1] != oord[0]);
                    assert(obuf[oord[i + 1]].next == oord[i + 2]);
                } else {
                    assert(nord[i] == oord[n - 1] && nord[i + 1] == oord[0]);
                    assert(obuf[oord[n - 1]].next == oord[0]);
                }
            }
            assert(nbuf[nord[n - 1]].next == nord[0]) by {
                if n == 1 {
                    assert(nord[0] == oord[0]);
                } else {
                    assert(nord[0] == oord[1]);
                    assert(obuf[oord[0]].next == oord[1]);
                }
            }
            assert(self.body.wf());

            // the body sequence advanced: oldest gone, new head appended
            assert forall|i: int| 0 <= i < n implies #[trigger] nbody[i] == (if i < n - 1 {
                obody[i + 1]
            } else {
                pos
            }) by {
                if i < n - 1 {
                    assert(nord[i] == oord[i + 1]);
                    assert(oord[i + 1] != oord[0]);
                    assert(nbuf[oord[i + 1]] == obuf[oord[i + 1]]);
                }
            }
            assert(nbody =~= obody.drop_first().push(pos));

            // segments stay in bounds and pairwise distinct
            assert forall|i: int|
                0 <= i < nbody.len() implies in_bounds(
                #[trigger] nbody[i],
                self.grid_w(),
                self.grid_h(),
            ) by {
                if i < n - 1 {
                    assert(nbody[i] == obody[i + 1]);
                }
            }
            assert forall|i: int, j: int| 0 <= i < j < nbody.len() implies nbody[i] != nbody[j] by {
                if j == n - 1 {
                    assert(nbody[i] == obody[i + 1]);
                    if obody[i + 1] == pos {
                        assert(obody.contains(pos));
                    }
                } else {
                    assert(nbody[i] == obody[i + 1] && nbody[j] == obody[j + 1]);
                }
            }

            // occupancy bits again match the live segments exactly
            assert forall|q: Point| in_bounds(q, self.grid_w(), self.grid_h()) implies (
            #[trigger] self.mask_bit(q) <==> nbody.contains(q)) by {
                assert(self.mask_bit(q) == self.mask.bit_at(q));
                assert(old(self).mask_bit(q) == old(self).mask.bit_at(q));
                if q == pos {
                    assert(nbody[n - 1] == pos);
                    assert(nbody.contains(q));
                } else if q == old_tail_pos {
                    assert(!self.mask.bit_at(q));
                    if nbody.contains(q) {
                        let i = choose|i: int| 0 <= i < nbody.len() && nbody[i] == q;
                        assert(nbody[i] == obody[i + 1]);
                        assert(obody[i + 1] == obody[0]);
                        assert(false);
                    }
                } else {
                    assert(self.mask.bit_at(q) == old(self).mask.bit_at(q));
                    if obody.contains(q) {
                        let i = choose|i: int| 0 <= i < obody.len() && obody[i] == q;
                        assert(i != 0);
                        assert(nbody[i - 1] == obody[i]);
                        assert(nbody.contains(q));
                    }
                    if nbody.contains(q) {
                        let i = choose|i: int| 0 <= i < nbody.len() && nbody[i] == q;
                        assert(nbody[i] == obody[i + 1]);
                        assert(obody.contains(q));
                    }
                }
            }
        }
    }

    /// Grow the snake by one cell: a fresh slot is linked in as the new
    /// head, and the tail stays where it is. The position of the new cell
    /// is passed as an argument to avoid recalculation.
    fn grow(&mut self, pos: Point)
        requires
            old(self).wf(),
            in_bounds(pos, old(self).grid_w(), old(self).grid_h()),
            !old(self).body_seq().contains(pos),
        ensures
            final(self).wf(),
            final(self).grid_w() == old(self).grid_w(),
            final(self).grid_h() == old(self).grid_h(),
            final(self).dir() == old(self).dir(),
            final(self).body_seq() == old(self).body_seq().push(pos),
    {
        let ghost oord = old(self).body.ord();
        let ghost obuf = old(self).body.buf@;
        let ghost obody = old(self).body_seq();
        let ghost n = oord.len() as int;

        let new_idx = self.body.buf.len();
        let t = self.body.tail;
        let h = self.body.head;
        proof {
            assert(oord[0] == t && oord[n - 1] == h);
        }
        self.mask.set(pos, true);
        let c = self.body.buf[h];
        self.body.buf[h] = Cell { pos: c.pos, next: new_idx, idx: c.idx };
        self.body.head = new_idx;
        self.body.buf.push(Cell { pos, next: t, idx: new_idx });
        proof {
            self.body.order@ = oord.push(new_idx as int);

            let nord = self.body.ord();
            let nbuf = self.body.buf@;
            let nbody = self.body_seq();
            let hi = h as int;
            let ni = new_idx as int;

            // frame facts: the old head's link now points at the fresh slot,
            // every other old slot is untouched, and the fresh slot sits at
            // the end of the buffer
            assert(nbuf.len() == obuf.len() + 1);
            assert(nbuf[hi].pos == obuf[hi].pos && nbuf[hi].next == ni && nbuf[hi].idx
                == obuf[hi].idx);
            assert(nbuf[ni].pos == pos && nbuf[ni].next == t && nbuf[ni].idx == ni);
            assert(forall|k: int| 0 <= k < obuf.len() && k != hi ==> nbuf[k] == obuf[k]);

            // the new order is the old one with the fresh slot appended
            assert(nord.len() == n + 1);
            assert(nord[n] == ni);
            assert(forall|i: int| 0 <= i < n ==> nord[i] == oord[i]);

            // the queue is again a well-formed cycle
            assert forall|i: int| 0 <= i < n + 1 implies 0 <= #[trigger] nord[i] < nbuf.len() by {
                if i < n {
                    assert(nord[i] == oord[i]);
                }
            }
            assert forall|i: int, j: int| 0 <= i < j < n + 1 implies nord[i] != nord[j] by {
                if j == n {
                    assert(nord[i] == oord[i]);
                } else {
                    assert(nord[i] == oord[i] && nord[j] == oord[j]);
                }
            }
            assert forall|i: int| 0 <= i < n implies nbuf[#[trigger] nord[i]].next == nord[i
                + 1] by {
                if i < n - 1 {
                    assert(nord[i] == oord[i] && nord[i + 1] == oord[i + 1]);
                    assert(oord[i] != oord[n - 1]);
                    assert(obuf[oord[i]].next == oord[i + 1]);
                } else {
                    assert(nord[n - 1] == oord[n - 1]);
                    assert(nbuf[hi].next == ni);
                }
            }
            assert(nbuf[nord[n]].next == nord[0]);
            assert(self.body.wf());

            // the body sequence gained the new head at its end
            assert forall|i: int| 0 <= i < n + 1 implies #[trigger] nbody[i] == (if i < n {
                obody[i]
            } else {
                pos
            }) by {
                if i < n {
                    assert(nord[i] == oord[i]);
                    if oord[i] != hi {
                        assert(nbuf[oord[i]] == obuf[oord[i]]);
                    }
                }
            }
            assert(nbody =~= obody.push(pos));

            // segments stay in bounds and pairwise distinct
            assert forall|i: int|
                0 <= i < nbody.len() implies in_bounds(
                #[trigger] nbody[i],
                self.grid_w(),
                self.grid_h(),
            ) by {
                if i < n {
                    assert(nbody[i] == obody[i]);
                }
            }
            assert forall|i: int, j: int| 0 <= i < j < nbody.len() implies nbody[i] != nbody[j] by {
                if j == n {
                    assert(nbody[i] == obody[i]);
                    if obody[i] == pos {
                        assert(obody.contains(pos));
                    }
                } else {
                    assert(nbody[i] == obody[i] && nbody[j] == obody[j]);
                }
            }

            // occupancy bits again match the live segments exactly
            assert forall|q: Point| in_bounds(q, self.grid_w(), self.grid_h()) implies (
            #[trigger] self.mask_bit(q) <==> nbody.contains(q)) by {
                assert(self.mask_bit(q) == self.mask.bit_at(q));
                assert(old(self).mask_bit(q) == old(self).mask.bit_at(q));
                if q == pos {
                    assert(nbody[n] == pos);
                    assert(nbody.contains(q));
                } else {
                    assert(self.mask.bit_at(q) == old(self).mask.bit_at(q));
                    if obody.contains(q) {
                        let i = choose|i: int| 0 <= i < obody.len() && obody[i] == q;
                        assert(nbody[i] == obody[i]);
                        assert(nbody.contains(q));
                    }
                    if nbody.contains(q) {
                        let i = choose|i: int| 0 <= i < nbody.len() && nbody[i] == q;
                        assert(i < n);
                        assert(nbody[i] == obody[i]);
                        assert(obody.contains(q));
                    }
                }
            }
        }
    }

    /// Perform a simulation step for the snake, given the current apple
    /// position. The head advances one cell in the current direction with
    /// toroidal wraparound; reaching a live segment ends the game, reaching
    /// the apple grows the snake by one cell, and otherwise the body
    /// advances, vacating its tail cell.
    pub fn step(&mut self, apple: Point) -> (r: SnakeStepResult)
        requires
            old(self).wf(),
        ensures
            final(self).wf(),
            final(self).grid_w() == old(self).grid_w(),
            final(self).grid_h() == old(self).grid_h(),
            final(self).dir() == old(self).dir(),
            ({
                let target = wrapped(
                    old(self).head_pos(),
                    old(self).dir(),
                    old(self).grid_w(),
                    old(self).grid_h(),
                );
                &&& old(self).body_seq().contains(target) ==> (r == SnakeStepResult::GameOver
                    && *final(self) == *old(self))
                &&& !old(self).body_seq().contains(target) && target == apple ==> (r
                    == SnakeStepResult::AppleEaten(
                    (SnakeChange { cell_added: target, cell_removed: None }),
                ) && final(self).body_seq() == old(self).body_seq().push(target))
                &&& !old(self).body_seq().contains(target) && target != apple ==> (r
                    == SnakeStepResult::Advanced(
                    (SnakeChange { cell_added: target, cell_removed: Some(old(self).tail_pos()) }),
                ) && final(self).body_seq() == old(self).body_seq().drop_first().push(target))
            }),
            final(self).body_seq().len() >= old(self).body_seq().len(),
            r == SnakeStepResult::GameOver ==> final(self).body_seq() == old(self).body_seq(),
            (r matches SnakeStepResult::AppleEaten(_)) ==> final(self).body_seq().len() == old(
                self,
            ).body_seq().len() + 1,
            (r matches SnakeStepResult::Advanced(_)) ==> final(self).body_seq().len() == old(
                self,
            ).body_seq().len(),
    {
        let ghost n = self.body.ord().len() as int;
        let h = self.body.head;
        proof {
            assert(self.body.ord()[n - 1] == h);
            assert(self.body_seq()[n - 1] == self.body.buf@[h as int].pos);
        }
        let head_pos = self.body.buf[h].pos;
        proof {
            assert(head_pos == old(self).head_pos());
            assert(in_bounds(head_pos, self.grid_w(), self.grid_h()));
        }
        let raw = head_pos.plus(self.direction);
        let new_x = wrap_coord(raw.x, self.screen_width);
        let new_y = wrap_coord(raw.y, self.screen_height);
        let new_pos = Point { x: new_x, y: new_y };
        proof {
            assert(new_pos == wrapped(
                old(self).head_pos(),
                old(self).dir(),
                old(self).grid_w(),
                old(self).grid_h(),
            ));
        }
        let t = self.body.tail;
        proof {
            assert(self.body.ord()[0] == t);
            assert(self.body_seq()[0] == self.body.buf@[t as int].pos);
        }
        let old_tail = self.body.buf[t].pos;
        let occupied = self.mask.get(new_pos);
        proof {
            assert(self.mask_bit(new_pos) == self.mask.bit_at(new_pos));
            assert(occupied == self.body_seq().contains(new_pos));
        }
        if occupied {
            return SnakeStepResult::GameOver;
        }
        if new_pos == apple {
            self.grow(new_pos);
            return SnakeStepResult::AppleEaten(
                SnakeChange { cell_added: new_pos, cell_removed: None },
            );
        }
        self.move_forward(new_pos);
        SnakeStepResult::Advanced(SnakeChange { cell_added: new_pos, cell_removed: Some(old_tail) })
    }

    /// Get the current length of the snake.
    pub fn len(&self) -> (n: usize)
        requires
            self.wf(),
        ensures
            n == self.body_seq().len(),
    {
        self.body.len()
    }
}

/// The cell reached after `k` single-cell moves in direction `d`,
/// starting from `p`.
pub open spec fn iter_wrapped(p: Point, d: Point, w: int, h: int, k: nat) -> Point
    decreases k,
{
    if k == 0 {
        p
    } else {
        wrapped(iter_wrapped(p, d, w, h, (k - 1) as nat), d, w, h)
    }
}

/// Closed form of repeated wraparound stepping: after `k` moves each axis
/// has advanced `k` times its direction component, modulo its dimension.
proof fn lemma_iter_wrapped_closed_form(p: Point, d: Point, w: int, h: int, k: nat)
    requires
        1 <= w <= i32::MAX,
        1 <= h <= i32::MAX,
        is_cardinal(d),
        in_bounds(p, w, h),
    ensures
        iter_wrapped(p, d, w, h, k) == (Point {
            x: ((p.x + k * d.x) % w) as i32,
            y: ((p.y + k * d.y) % h) as i32,
        }),
        in_bounds(iter_wrapped(p, d, w, h, k), w, h),
    decreases k,
{
    lemma_mod_division_less_than_divisor(p.x + k * d.x, w);
    lemma_mod_division_less_than_divisor(p.y + k * d.y, h);
    if k == 0 {
        lemma_small_mod(p.x as nat, w as nat);
        lemma_small_mod(p.y as nat, h as nat);
    } else {
        let k1 = (k - 1) as nat;
        lemma_iter_wrapped_closed_form(p, d, w, h, k1);
        let q = iter_wrapped(p, d, w, h, k1);
        assert(q.x as int == (p.x + k1 * d.x) % w);
        assert(q.y as int == (p.y + k1 * d.y) % h);
        lemma_add_mod_noop_right(d.x as int, p.x + k1 * d.x, w);
        lemma_add_mod_noop_right(d.y as int, p.y + k1 * d.y, h);
        lemma_mod_division_less_than_divisor(q.x + d.x, w);
        lemma_mod_division_less_than_divisor(q.y + d.y, h);
        assert(k1 * d.x + d.x == k * d.x) by (nonlinear_arith)
            requires
                k1 == k - 1,
        ;
        assert(k1 * d.y + d.y == k * d.y) by (nonlinear_arith)
            requires
                k1 == k - 1,
        ;
        assert((q.x + d.x) % w == (p.x + k * d.x) % w);
        assert((q.y + d.y) % h == (p.y + k * d.y) % h);
    }
}

/// Law of toroidal wraparound: a head stepped again and again in one
/// cardinal direction never leaves the grid, and `width * height` steps
/// bring it back exactly to its starting cell.
pub proof fn lemma_wraparound_cycle(p: Point, d: Point, w: int, h: int)
    requires
        1 <= w <= i32::MAX,
        1 <= h <= i32::MAX,
        is_cardinal(d),
        in_bounds(p, w, h),
    ensures
        forall|k: nat| in_bounds(#[trigger] iter_wrapped(p, d, w, h, k), w, h),
        iter_wrapped(p, d, w, h, (w * h) as nat) == p,
{
    assert forall|k: nat| in_bounds(#[trigger] iter_wrapped(p, d, w, h, k), w, h) by {
        lemma_iter_wrapped_closed_form(p, d, w, h, k);
    }
    assert(w * h >= 1) by (nonlinear_arith)
        requires
            w >= 1 && h >= 1,
    ;
    let k = (w * h) as nat;
    lemma_iter_wrapped_closed_form(p, d, w, h, k);
    lemma_small_mod(p.x as nat, w as nat);
    lemma_small_mod(p.y as nat, h as nat);
    if d.x == 1 {
        assert(k * d.x == w * h && k * d.y == 0) by (nonlinear_arith)
            requires
                k == w * h && d.x == 1 && d.y == 0,
        ;
        lemma_mod_multiples_vanish(h, p.x as int, w);
    } else if d.x == -1 {
        assert(k * d.x == w * (-h) && k * d.y == 0) by (nonlinear_arith)
            requires
                k == w * h && d.x == -1 && d.y == 0,
        ;
        lemma_mod_multiples_vanish(-h, p.x as int, w);
    } else if d.y == 1 {
        assert(k * d.y == h * w && k * d.x == 0) by (nonlinear_arith)
            requires
                k == w * h && d.y == 1 && d.x == 0,
        ;
        lemma_mod_multiples_vanish(w, p.y as int, h);
    } else {
        assert(k * d.y == h * (-w) && k * d.x == 0) by (nonlinear_arith)
            requires
                k == w * h && d.y == -1 && d.x == 0,
        ;
        lemma_mod_multiples_vanish(-w, p.y as int, h);
    }
}

/// The set of occupancy bits equals the set of cells held by live body
/// segments: this holds of every well-formed snake, hence after construction
/// and after every step that the snake survives.
pub proof fn lemma_occupancy_matches_body(s: &Snake)
    requires
        s.wf(),
    ensures
        forall|p: Point|
            in_bounds(p, s.grid_w(), s.grid_h()) ==> (#[trigger] s.mask_bit(p)
                <==> s.body_seq().contains(p)),
{
}

} // verus!
