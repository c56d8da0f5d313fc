//! Straight lines on the grid.

use crate::geometry::GridPosition;
use vstd::arithmetic::div_mod::lemma_fundamental_div_mod_converse;
use vstd::prelude::*;

verus! {

/// The distance between two coordinates.
pub open spec fn distance(a: int, b: int) -> int {
    if a <= b {
        b - a
    } else {
        a - b
    }
}

/// How far a line has moved along its minor axis after `k` steps along its
/// major axis, where the whole line moves `minor` for `major`: the share
/// `k * minor / major`, rounded to the nearest whole step, halves rounded
/// down.
pub open spec fn minor_steps(k: int, minor: int, major: int) -> int {
    if major <= 0 {
        0
    } else {
        (2 * k * minor + major - 1) / (2 * major)
    }
}

/// The point `k` steps along a line that starts at `(major0, minor0)` and
/// moves towards `minor1` while the major coordinate grows by `major`.
/// `along_x` says that the major axis is x.
pub open spec fn line_point(
    k: int,
    major0: int,
    major: int,
    minor0: int,
    minor1: int,
    z: int,
    along_x: bool,
) -> GridPosition {
    let side = minor0 + (if minor1 < minor0 {
        -1
    } else {
        1int
    }) * minor_steps(k, distance(minor0, minor1), major);
    if along_x {
        GridPosition::at(major0 + k, side, z)
    } else {
        GridPosition::at(side, major0 + k, z)
    }
}

/// The positions of the straight line between two positions, on the level
/// of `from`. The line runs along the axis on which the two are further
/// apart (along y where they are equally far), from the end with the
/// smaller coordinate on that axis to the other, one position per step.
pub open spec fn line_seq(from: GridPosition, to: GridPosition) -> Seq<GridPosition> {
    if distance(from.y as int, to.y as int) < distance(from.x as int, to.x as int) {
        let lower = if from.x < to.x {
            from
        } else {
            to
        };
        let upper = if from.x < to.x {
            to
        } else {
            from
        };
        Seq::new(
            (upper.x - lower.x + 1) as nat,
            |k: int|
                line_point(
                    k,
                    lower.x as int,
                    upper.x - lower.x,
                    lower.y as int,
                    upper.y as int,
                    from.z as int,
                    true,
                ),
        )
    } else {
        let lower = if from.y < to.y {
            from
        } else {
            to
        };
        let upper = if from.y < to.y {
            to
        } else {
            from
        };
        Seq::new(
            (upper.y - lower.y + 1) as nat,
            |k: int|
                line_point(
                    k,
                    lower.y as int,
                    upper.y - lower.y,
                    lower.x as int,
                    upper.x as int,
                    from.z as int,
                    false,
                ),
        )
    }
}

/// The rounded share is the whole number nearest to `k * minor / major`,
/// and it never leaves the span of the minor axis.
pub proof fn lemma_minor_steps_nearest(k: int, minor: int, major: int)
    requires
        0 <= minor <= major,
        0 < major,
        0 <= k <= major,
    ensures
        -major < 2 * (k * minor - minor_steps(k, minor, major) * major) <= major,
        0 <= minor_steps(k, minor, major) <= minor,
        k == 0 ==> minor_steps(k, minor, major) == 0,
        k == major ==> minor_steps(k, minor, major) == minor,
{
    let n = minor_steps(k, minor, major);
    let top = 2 * k * minor + major - 1;
    vstd::arithmetic::div_mod::lemma_fundamental_div_mod(top, 2 * major);
    vstd::arithmetic::div_mod::lemma_mod_bound(top, 2 * major);
    let r = top % (2 * major);
    let p = k * minor;
    let m = n * major;
    let full = major * minor;
    assert(top == 2 * p + major - 1) by (nonlinear_arith)
        requires
            top == 2 * k * minor + major - 1,
            p == k * minor,
    ;
    assert(2 * major * n == 2 * m) by (nonlinear_arith)
        requires
            m == n * major,
    ;
    assert(2 * p + major - 1 == 2 * m + r);
    assert(0 <= p <= full) by (nonlinear_arith)
        requires
            0 <= k <= major,
            0 <= minor,
            p == k * minor,
            full == major * minor,
    ;
    assert(n <= -1 ==> m <= -major) by (nonlinear_arith)
        requires
            m == n * major,
            major > 0,
    ;
    assert(n >= minor + 1 ==> m >= full + major) by (nonlinear_arith)
        requires
            m == n * major,
            full == major * minor,
            major > 0,
    ;
    assert(n >= 1 ==> m >= major) by (nonlinear_arith)
        requires
            m == n * major,
            major > 0,
    ;
    assert(n <= minor - 1 ==> m <= full - major) by (nonlinear_arith)
        requires
            m == n * major,
            full == major * minor,
            major > 0,
    ;
    if k == 0 {
        assert(p == 0) by (nonlinear_arith)
            requires
                p == k * minor,
                k == 0,
        ;
    }
    if k == major {
        assert(p == full);
    }
}

/// The running error of a line after `k` steps of which `taken` also moved
/// along the minor axis.
spec fn line_error(k: int, minor: int, major: int, taken: int) -> int {
    2 * (k + 1) * minor - major - 2 * major * taken
}

/// How the running error moves with one step.
proof fn lemma_line_error_step(k: int, minor: int, major: int, taken: int)
    ensures
        line_error(k + 1, minor, major, taken) == line_error(k, minor, major, taken) + 2 * minor,
        line_error(k + 1, minor, major, taken + 1) == line_error(k, minor, major, taken) + 2
            * minor - 2 * major,
        line_error(0, minor, major, 0) == 2 * minor - major,
{
    assert(2 * (k + 1 + 1) * minor == 2 * (k + 1) * minor + 2 * minor) by (nonlinear_arith);
    assert(2 * major * (taken + 1) == 2 * major * taken + 2 * major) by (nonlinear_arith);
    assert(2 * (0 + 1) * minor == 2 * minor) by (nonlinear_arith);
    assert(2 * major * 0 == 0) by (nonlinear_arith);
}

/// A running error within its band fixes how many steps moved along the
/// minor axis.
proof fn lemma_taken_from_error(k: int, minor: int, major: int, taken: int)
    requires
        0 < major,
        2 * minor - 2 * major < line_error(k, minor, major, taken) <= 2 * minor,
    ensures
        taken == minor_steps(k, minor, major),
{
    let d = line_error(k, minor, major, taken);
    assert(2 * k * minor + major - 1 == 2 * major * taken + (d - 2 * minor + 2 * major - 1))
        by (nonlinear_arith)
        requires
            d == 2 * (k + 1) * minor - major - 2 * major * taken,
    ;
    lemma_fundamental_div_mod_converse(
        2 * k * minor + major - 1,
        2 * major,
        taken,
        d - 2 * minor + 2 * major - 1,
    );
}

/// Walks a line along its major axis with whole-number error tracking and
/// collects its positions.
fn raster(
    major0: i32,
    major1: i32,
    minor0: i32,
    minor1: i32,
    z: i32,
    along_x: bool,
) -> (points: Vec<GridPosition>)
    requires
        major0 <= major1,
        distance(minor0 as int, minor1 as int) <= major1 - major0,
    ensures
        points@ == Seq::new(
            (major1 - major0 + 1) as nat,
            |k: int|
                line_point(
                    k,
                    major0 as int,
                    major1 - major0,
                    minor0 as int,
                    minor1 as int,
                    z as int,
                    along_x,
                ),
        ),
{
    let major: i64 = major1 as i64 - major0 as i64;
    let dir: i64 = if minor1 < minor0 { -1 } else { 1 };
    let minor: i64 = if minor1 < minor0 {
        minor0 as i64 - minor1 as i64
    } else {
        minor1 as i64 - minor0 as i64
    };
    let mut d: i64 = 2 * minor - major;
    let mut taken: i64 = 0;
    let mut k: i64 = 0;
    let mut points: Vec<GridPosition> = Vec::new();
    proof {
        lemma_line_error_step(0, minor as int, major as int, 0);
    }
    while k <= major
        invariant
            major == major1 - major0,
            minor == distance(minor0 as int, minor1 as int),
            dir == (if minor1 < minor0 { -1 } else { 1int }),
            0 <= minor <= major <= u32::MAX,
            0 <= k <= major + 1,
            0 <= taken <= minor,
            k <= major ==> d == line_error(k as int, minor as int, major as int, taken as int),
            k <= major && major > 0 ==> 2 * minor - 2 * major < d <= 2 * minor,
            major == 0 ==> d == 0 && taken == 0,
            points@.len() == k,
            forall|j: int|
                0 <= j < k ==> #[trigger] points@[j] == line_point(
                    j,
                    major0 as int,
                    major1 - major0,
                    minor0 as int,
                    minor1 as int,
                    z as int,
                    along_x,
                ),
        decreases major + 1 - k,
    {
        proof {
            if major > 0 {
                lemma_taken_from_error(k as int, minor as int, major as int, taken as int);
            }
            assert(taken == minor_steps(k as int, minor as int, major as int));
            assert(dir * taken == if minor1 < minor0 {
                -taken
            } else {
                taken as int
            }) by (nonlinear_arith)
                requires
                    dir == (if minor1 < minor0 { -1 } else { 1int }),
            ;
        }
        let along: i32 = (major0 as i64 + k) as i32;
        let side: i32 = (minor0 as i64 + dir * taken) as i32;
        let point = if along_x {
            GridPosition { x: along, y: side, z }
        } else {
            GridPosition { x: side, y: along, z }
        };
        points.push(point);
        if k < major {
            proof {
                lemma_line_error_step(k as int, minor as int, major as int, taken as int);
            }
            if d > 0 {
                proof {
                    lemma_taken_from_error(
                        k + 1,
                        minor as int,
                        major as int,
                        taken + 1,
                    );
                    lemma_minor_steps_nearest(k + 1, minor as int, major as int);
                }
                taken = taken + 1;
                d = d + 2 * (minor - major);
            } else {
                d = d + 2 * minor;
            }
        }
        k = k + 1;
    }
    assert(points@ =~= Seq::new(
        (major1 - major0 + 1) as nat,
        |k: int|
            line_point(
                k,
                major0 as int,
                major1 - major0,
                minor0 as int,
                minor1 as int,
                z as int,
                along_x,
            ),
    ));
    points
}

impl GridPosition {
    /// All positions of the straight line to `target`, on this position's
    /// level. The line is walked along the axis with the gentler slope, from
    /// the end with the smaller coordinate on that axis; a line from a
    /// position to itself is that position alone.
    pub fn line_to_2d(self, target: GridPosition) -> (line: Vec<GridPosition>)
        ensures
            line@ == line_seq(self, target),
    {
        let across: i64 = if self.x <= target.x {
            target.x as i64 - self.x as i64
        } else {
            self.x as i64 - target.x as i64
        };
        let up: i64 = if self.y <= target.y {
            target.y as i64 - self.y as i64
        } else {
            self.y as i64 - target.y as i64
        };
        if up < across {
            if self.x < target.x {
                raster(self.x, target.x, self.y, target.y, self.z, true)
            } else {
                raster(target.x, self.x, target.y, self.y, self.z, true)
            }
        } else {
            if self.y < target.y {
                raster(self.y, target.y, self.x, target.x, self.z, false)
            } else {
                raster(target.y, self.y, target.x, self.x, self.z, false)
            }
        }
    }
}

} // verus!
