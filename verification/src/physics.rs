//! Discrete-time simulation of moving axis-aligned rectangles.
//!
//! Positions, sizes and velocities are integer coordinate units; one call to
//! [`Simulation::update`] advances every rectangle by `vel * delta_time` and
//! flips a velocity component whenever the tentative move would leave the
//! arena on that axis, so the rectangle moves in the corrected direction on
//! the very tick it bounces.

use vstd::prelude::*;

verus! {

/// A point or extent in the simulation's integer coordinate units.
#[derive(Debug, Clone, Copy, PartialEq, Eq, Structural)]
pub struct Vec2 {
    pub x: i32,
    pub y: i32,
}

/// A moving axis-aligned rectangle.
#[derive(Debug, Clone, Copy, PartialEq, Eq, Structural)]
pub struct Rectangle {
    /// Position of the top left corner.
    pub pos: Vec2,
    /// Size along each axis.
    pub size: Vec2,
    /// Velocity in units per time step.
    pub vel: Vec2,
}

/// Rectangles moving inside a bounded arena.
#[derive(Debug)]
pub struct Simulation {
    size: Vec2,
    rectangles: Vec<Rectangle>,
}

#[derive(Debug, Clone, Copy, PartialEq, Eq, Structural)]
pub enum PhysicsError {
    Overlap,
}

/// The axis-aligned bounding boxes of `a` and `b` intersect.
pub open spec fn rects_overlap(a: Rectangle, b: Rectangle) -> bool {
    &&& a.pos.x < b.pos.x + b.size.x
    &&& a.pos.x + a.size.x > b.pos.x
    &&& a.pos.y < b.pos.y + b.size.y
    &&& a.pos.y + a.size.y > b.pos.y
}

/// The tentative move of `r` over one step of `dt` would cross the arena's
/// bound on the x axis.
pub open spec fn bounce_x(r: Rectangle, arena: Vec2, dt: int) -> bool {
    let next = r.pos.x + r.vel.x * dt;
    next < 0 || next + r.size.x > arena.x
}

/// The tentative move of `r` over one step of `dt` would cross the arena's
/// bound on the y axis.
pub open spec fn bounce_y(r: Rectangle, arena: Vec2, dt: int) -> bool {
    let next = r.pos.y + r.vel.y * dt;
    next < 0 || next + r.size.y > arena.y
}

/// The x velocity of `r` after one step: flipped exactly when the tentative
/// move bounces on the x axis.
pub open spec fn stepped_vel_x(r: Rectangle, arena: Vec2, dt: int) -> int {
    if bounce_x(r, arena, dt) {
        -r.vel.x
    } else {
        r.vel.x as int
    }
}

/// The y velocity of `r` after one step.
pub open spec fn stepped_vel_y(r: Rectangle, arena: Vec2, dt: int) -> int {
    if bounce_y(r, arena, dt) {
        -r.vel.y
    } else {
        r.vel.y as int
    }
}

/// The x position of `r` after one step: the move uses the possibly flipped
/// velocity, so a bouncing rectangle turns around on the bounce tick itself.
pub open spec fn stepped_pos_x(r: Rectangle, arena: Vec2, dt: int) -> int {
    r.pos.x + stepped_vel_x(r, arena, dt) * dt
}

/// The y position of `r` after one step.
pub open spec fn stepped_pos_y(r: Rectangle, arena: Vec2, dt: int) -> int {
    r.pos.y + stepped_vel_y(r, arena, dt) * dt
}

/// The stepped position and velocity of `r` stay representable.
pub open spec fn step_fits(r: Rectangle, arena: Vec2, dt: int) -> bool {
    &&& i32::MIN <= stepped_vel_x(r, arena, dt) <= i32::MAX
    &&& i32::MIN <= stepped_vel_y(r, arena, dt) <= i32::MAX
    &&& i32::MIN <= stepped_pos_x(r, arena, dt) <= i32::MAX
    &&& i32::MIN <= stepped_pos_y(r, arena, dt) <= i32::MAX
}

/// `r` after one step of `dt` inside `arena`: size kept, velocity flipped on
/// each bouncing axis, position advanced by the resulting velocity.
pub open spec fn stepped(r: Rectangle, arena: Vec2, dt: int) -> Rectangle {
    Rectangle {
        pos: Vec2 {
            x: stepped_pos_x(r, arena, dt) as i32,
            y: stepped_pos_y(r, arena, dt) as i32,
        },
        size: r.size,
        vel: Vec2 {
            x: stepped_vel_x(r, arena, dt) as i32,
            y: stepped_vel_y(r, arena, dt) as i32,
        },
    }
}

/// Bounding-box intersection does not depend on the order of its arguments.
pub proof fn lemma_overlap_symmetric(a: Rectangle, b: Rectangle)
    ensures
        rects_overlap(a, b) == rects_overlap(b, a),
{
}

/// A product of two values in the range of `i32` fits comfortably in `i64`.
proof fn lemma_mul_i32_range(a: int, b: int)
    requires
        i32::MIN <= a <= i32::MAX,
        i32::MIN <= b <= i32::MAX,
    ensures
        -0x4000000000000000 <= a * b <= 0x4000000000000000,
{
    assert(-0x4000000000000000 <= a * b <= 0x4000000000000000) by (nonlinear_arith)
        requires
            -0x80000000 <= a <= 0x7fffffff,
            -0x80000000 <= b <= 0x7fffffff,
    ;
}

/// A rectangle whose tentative move crosses the far arena wall on the x axis
/// leaves one update with its x velocity flipped in sign and its x position
/// moved in the new, negative direction.
pub proof fn lemma_bounce_far_wall_x(r: Rectangle, arena: Vec2, dt: int)
    requires
        0 <= arena.x,
        0 <= r.size.x,
        0 < r.vel.x,
        0 < dt,
        r.pos.x + r.vel.x * dt > arena.x,
    ensures
        stepped_vel_x(r, arena, dt) == -r.vel.x,
        stepped_pos_x(r, arena, dt) == r.pos.x - r.vel.x * dt,
        stepped_pos_x(r, arena, dt) < r.pos.x,
{
    assert(0 < r.vel.x * dt) by (nonlinear_arith)
        requires
            0 < r.vel.x,
            0 < dt,
    ;
    assert(bounce_x(r, arena, dt));
    assert((-r.vel.x) * dt == -(r.vel.x * dt)) by (nonlinear_arith);
}

impl Simulation {
    /// The rectangles currently in the simulation, in insertion order.
    pub closed spec fn rects(&self) -> Seq<Rectangle> {
        self.rectangles@
    }

    /// The arena bounds.
    pub closed spec fn arena(&self) -> Vec2 {
        self.size
    }

    /// Creates an empty simulation with the given arena bounds.
    pub fn new(size: Vec2) -> (s: Simulation)
        requires
            size.x > 0,
            size.y > 0,
        ensures
            s.arena() == size,
            s.rects() == Seq::<Rectangle>::empty(),
    {
        Simulation { size, rectangles: Vec::new() }
    }

    /// The current rectangle list, in insertion order.
    pub fn get_rectangles(&self) -> (r: &Vec<Rectangle>)
        ensures
            r@ == self.rects(),
    {
        &self.rectangles
    }

    /// Appends `rectangle` unless its bounding box intersects one already in
    /// the list; on an intersection nothing changes and `Overlap` is
    /// returned.
    pub fn add_rectangle(&mut self, rectangle: Rectangle) -> (res: Result<(), PhysicsError>)
        ensures
            final(self).arena() == old(self).arena(),
            (exists|i: int|
                0 <= i < old(self).rects().len() && rects_overlap(
                    rectangle,
                    #[trigger] old(self).rects()[i],
                )) ==> {
                &&& res == Result::<(), PhysicsError>::Err(PhysicsError::Overlap)
                &&& final(self).rects() == old(self).rects()
            },
            (forall|i: int|
                0 <= i < old(self).rects().len() ==> !rects_overlap(
                    rectangle,
                    #[trigger] old(self).rects()[i],
                )) ==> {
                &&& res == Result::<(), PhysicsError>::Ok(())
                &&& final(self).rects() == old(self).rects().push(rectangle)
            },
    {
        let n = self.rectangles.len();
        let mut i: usize = 0;
        while i < n
            invariant
                n == self.rects().len(),
                i <= n,
                forall|j: int| 0 <= j < i ==> !rects_overlap(rectangle, #[trigger] self.rects()[j]),
            decreases n - i,
        {
            if overlap(&rectangle, &self.rectangles[i]) {
                return Err(PhysicsError::Overlap);
            }
            i += 1;
        }
        self.rectangles.push(rectangle);
        Ok(())
    }

    /// Advances every rectangle by one step of `delta_time`, flipping a
    /// velocity component wherever the tentative move would leave the arena
    /// on that axis.
    pub fn update(&mut self, delta_time: i32)
        requires
            forall|i: int|
                0 <= i < old(self).rects().len() ==> step_fits(
                    #[trigger] old(self).rects()[i],
                    old(self).arena(),
                    delta_time as int,
                ),
        ensures
            final(self).arena() == old(self).arena(),
            final(self).rects().len() == old(self).rects().len(),
            forall|i: int|
                0 <= i < old(self).rects().len() ==> #[trigger] final(self).rects()[i] == stepped(
                    old(self).rects()[i],
                    old(self).arena(),
                    delta_time as int,
                ),
    {
        let n = self.rectangles.len();
        let dt = delta_time as i64;
        let mut idx: usize = 0;
        while idx < n
            invariant
                self.arena() == old(self).arena(),
                n == self.rects().len(),
                n == old(self).rects().len(),
                idx <= n,
                dt == delta_time as int,
                forall|j: int| idx <= j < n ==> #[trigger] self.rects()[j] == old(self).rects()[j],
                forall|j: int|
                    0 <= j < n ==> step_fits(
                        #[trigger] old(self).rects()[j],
                        old(self).arena(),
                        delta_time as int,
                    ),
                forall|j: int|
                    0 <= j < idx ==> #[trigger] self.rects()[j] == stepped(
                        old(self).rects()[j],
                        old(self).arena(),
                        delta_time as int,
                    ),
            decreases n - idx,
        {
            let r = self.rectangles[idx];
            proof {
                lemma_mul_i32_range(r.vel.x as int, dt as int);
                lemma_mul_i32_range(r.vel.y as int, dt as int);
            }
            let next_x = r.pos.x as i64 + (r.vel.x as i64) * dt;
            let next_y = r.pos.y as i64 + (r.vel.y as i64) * dt;
            let vx: i32 = if next_x < 0 || next_x + r.size.x as i64 > self.size.x as i64 {
                -r.vel.x
            } else {
                r.vel.x
            };
            let vy: i32 = if next_y < 0 || next_y + r.size.y as i64 > self.size.y as i64 {
                -r.vel.y
            } else {
                r.vel.y
            };
            proof {
                lemma_mul_i32_range(vx as int, dt as int);
                lemma_mul_i32_range(vy as int, dt as int);
            }
            let px = (r.pos.x as i64 + (vx as i64) * dt) as i32;
            let py = (r.pos.y as i64 + (vy as i64) * dt) as i32;
            self.rectangles[idx] = Rectangle {
                pos: Vec2 { x: px, y: py },
                size: r.size,
                vel: Vec2 { x: vx, y: vy },
            };
            idx += 1;
        }
    }
}

/// The axis-aligned bounding boxes of `a` and `b` intersect.
fn overlap(a: &Rectangle, b: &Rectangle) -> (r: bool)
    ensures
        r == rects_overlap(*a, *b),
{
    (a.pos.x as i64) < b.pos.x as i64 + b.size.x as i64
        && a.pos.x as i64 + a.size.x as i64 > (b.pos.x as i64)
        && (a.pos.y as i64) < b.pos.y as i64 + b.size.y as i64
        && a.pos.y as i64 + a.size.y as i64 > (b.pos.y as i64)
}

} // verus!
