//! The visibility oracle and the pathfinder.
//!
//! Visibility walks the rational line between two cells in `distance` equal
//! steps and asks for an unoccupied candidate cell near every intermediate
//! point. The sampled points have denominator `distance`, so the walk is
//! computed exactly over scaled integers; a sampled coordinate `n / d` is
//! floored, ceiled or rounded (halves away from zero) without ever leaving
//! the integers.
//!
//! The pathfinder is a bounded breadth-first search seeded from the target,
//! expanding through unoccupied cells of the Moore neighborhood until it
//! discovers the searcher as a neighbor of some frontier cell.

use vstd::prelude::*;

use crate::entity::{manhattan, pos_add, pos_ok, pos_sub, Entity, Pos};
use crate::level::{find_at, occupied, world, Cell, Level};

verus! {

/// Search cells this far out are never enqueued by the pathfinder; the bound
/// lies well outside any cell a bounded search from an in-field target can
/// reach, and it keeps the frontier arithmetic inside `i32`.
pub const SEARCH_BOUND: i32 = 1_100_000;

pub open spec fn in_search_field(p: Pos) -> bool {
    -SEARCH_BOUND <= p.x <= SEARCH_BOUND && -SEARCH_BOUND <= p.y <= SEARCH_BOUND
}

/// Floor of `n / d` for `d > 0`.
pub open spec fn fdiv(n: int, d: int) -> int {
    if n >= 0 {
        n / d
    } else {
        -(((-n) + d - 1) / d)
    }
}

/// Ceiling of `n / d` for `d > 0`.
pub open spec fn cdiv(n: int, d: int) -> int {
    if n >= 0 {
        (n + d - 1) / d
    } else {
        -((-n) / d)
    }
}

/// `n / d` rounded to the nearest integer, halves away from zero, `d > 0`.
pub open spec fn rdiv(n: int, d: int) -> int {
    if n >= 0 {
        (2 * n + d) / (2 * d)
    } else {
        -((2 * (-n) + d) / (2 * d))
    }
}

/// The fractional part of `n / d` is exactly one half in magnitude.
pub open spec fn is_half(n: int, d: int) -> bool {
    (2 * abs_int(n)) % (2 * d) == d
}

pub open spec fn abs_int(n: int) -> int {
    if n >= 0 {
        n
    } else {
        -n
    }
}

/// The candidate cells for the sampled point `i / distance` of the way from
/// `a` to `b`. On a diagonal half-integer corner two cells straddle the
/// line, picked by the sign of the product of the deltas; elsewhere the
/// point rounds to a single cell.
pub open spec fn tiles_at(a: Pos, b: Pos, i: int) -> Seq<Pos> {
    let d = manhattan(a, b);
    let dx = b.x - a.x;
    let dy = b.y - a.y;
    let nx = a.x * d + dx * i;
    let ny = a.y * d + dy * i;
    if is_half(nx, d) && is_half(ny, d) {
        if dx * dy > 0 {
            seq![
                Pos { x: cdiv(nx, d) as i32, y: fdiv(ny, d) as i32 },
                Pos { x: fdiv(nx, d) as i32, y: cdiv(ny, d) as i32 },
            ]
        } else {
            seq![
                Pos { x: cdiv(nx, d) as i32, y: cdiv(ny, d) as i32 },
                Pos { x: fdiv(nx, d) as i32, y: fdiv(ny, d) as i32 },
            ]
        }
    } else {
        seq![Pos { x: rdiv(nx, d) as i32, y: rdiv(ny, d) as i32 }]
    }
}

/// The first unoccupied candidate cell at step `i` of the walk from `a`
/// toward `b`, if any.
pub open spec fn step_dir(w: Seq<Cell>, a: Pos, b: Pos, i: int) -> Option<Pos> {
    let ts = tiles_at(a, b, i);
    if !occupied(w, ts[0]) {
        Some(ts[0])
    } else if ts.len() >= 2 && !occupied(w, ts[1]) {
        Some(ts[1])
    } else {
        None
    }
}

/// Every intermediate step of the walk from `a` to `b` has a clear
/// candidate cell.
pub open spec fn sight_clear(w: Seq<Cell>, a: Pos, b: Pos) -> bool {
    forall|i: int| 1 <= i < manhattan(a, b) ==> (#[trigger] step_dir(w, a, b, i)) is Some
}

/// What `can_see` returns: `None` beyond the radius or on a blocked line;
/// for an adjacent target the unit step toward it; otherwise the first
/// step off the observer along the clear line.
pub open spec fn can_see_spec(w: Seq<Cell>, a: Pos, b: Pos, view_distance: int) -> Option<Pos> {
    let d = manhattan(a, b);
    if d > view_distance {
        None
    } else if !sight_clear(w, a, b) {
        None
    } else if d == 1 {
        Some(pos_sub(b, a))
    } else if d >= 2 {
        match step_dir(w, a, b, 1) {
            Some(t) => Some(pos_sub(t, a)),
            None => None,
        }
    } else {
        None
    }
}

/// Floor division by a positive divisor, computed on nonnegative operands.
fn fdiv64(n: i64, d: i64) -> (r: i64)
    requires
        0 < d <= 2_000_000,
        -4_000_000_000_000 <= n <= 4_000_000_000_000,
    ensures
        r == fdiv(n as int, d as int),
{
    if n >= 0 {
        ((n as u64) / (d as u64)) as i64
    } else {
        let m: u64 = (((-n) as u64) + (d as u64) - 1) / (d as u64);
        -(m as i64)
    }
}

/// Ceiling division by a positive divisor.
fn cdiv64(n: i64, d: i64) -> (r: i64)
    requires
        0 < d <= 2_000_000,
        -4_000_000_000_000 <= n <= 4_000_000_000_000,
    ensures
        r == cdiv(n as int, d as int),
{
    if n >= 0 {
        (((n as u64) + (d as u64) - 1) / (d as u64)) as i64
    } else {
        -((((-n) as u64) / (d as u64)) as i64)
    }
}

/// Rounding division by a positive divisor, halves away from zero.
fn rdiv64(n: i64, d: i64) -> (r: i64)
    requires
        0 < d <= 2_000_000,
        -4_000_000_000_000 <= n <= 4_000_000_000_000,
    ensures
        r == rdiv(n as int, d as int),
{
    if n >= 0 {
        ((2 * (n as u64) + (d as u64)) / (2 * (d as u64))) as i64
    } else {
        -(((2 * ((-n) as u64) + (d as u64)) / (2 * (d as u64))) as i64)
    }
}

fn is_half64(n: i64, d: i64) -> (r: bool)
    requires
        0 < d <= 2_000_000,
        -4_000_000_000_000 <= n <= 4_000_000_000_000,
    ensures
        r == is_half(n as int, d as int),
{
    let a: u64 = if n >= 0 {
        n as u64
    } else {
        (-n) as u64
    };
    (2 * a) % (2 * (d as u64)) == d as u64
}

impl Level {
    /// The candidate cells near the sampled point at step `i` of the walk.
    fn get_tiles(a: Pos, b: Pos, i: i32) -> (r: Vec<Pos>)
        requires
            pos_ok(a),
            pos_ok(b),
            2 <= manhattan(a, b) <= 1000,
            1 <= i < manhattan(a, b),
        ensures
            r@ == tiles_at(a, b, i as int),
    {
        let d: i64 = position_distance_i64(a, b);
        let dx: i64 = b.x as i64 - a.x as i64;
        let dy: i64 = b.y as i64 - a.y as i64;
        proof {
            assert(-1000 <= dx <= 1000 && -1000 <= dy <= 1000);
            assert(-2_000_000_000 <= a.x as int * (d as int) <= 2_000_000_000) by (nonlinear_arith)
                requires
                    -1_000_000 <= a.x as int <= 1_000_000,
                    0 <= d as int <= 1000,
            ;
            assert(-2_000_000_000 <= a.y as int * (d as int) <= 2_000_000_000) by (nonlinear_arith)
                requires
                    -1_000_000 <= a.y as int <= 1_000_000,
                    0 <= d as int <= 1000,
            ;
            assert(-2_000_000 <= dx as int * (i as int) <= 2_000_000) by (nonlinear_arith)
                requires
                    -1000 <= dx as int <= 1000,
                    0 <= i as int <= 1000,
            ;
            assert(-2_000_000 <= dy as int * (i as int) <= 2_000_000) by (nonlinear_arith)
                requires
                    -1000 <= dy as int <= 1000,
                    0 <= i as int <= 1000,
            ;
        }
        let nx: i64 = a.x as i64 * d + dx * (i as i64);
        let ny: i64 = a.y as i64 * d + dy * (i as i64);
        proof {
            assert(-1_000_000 <= dx * dy <= 1_000_000) by (nonlinear_arith)
                requires
                    -1000 <= dx <= 1000,
                    -1000 <= dy <= 1000,
            ;
        }
        let mut r: Vec<Pos> = Vec::new();
        if is_half64(nx, d) && is_half64(ny, d) {
            if dx * dy > 0 {
                r.push(
                    Pos {
                        x: #[verifier::truncate] (cdiv64(nx, d) as i32),
                        y: #[verifier::truncate] (fdiv64(ny, d) as i32),
                    },
                );
                r.push(
                    Pos {
                        x: #[verifier::truncate] (fdiv64(nx, d) as i32),
                        y: #[verifier::truncate] (cdiv64(ny, d) as i32),
                    },
                );
            } else {
                r.push(
                    Pos {
                        x: #[verifier::truncate] (cdiv64(nx, d) as i32),
                        y: #[verifier::truncate] (cdiv64(ny, d) as i32),
                    },
                );
                r.push(
                    Pos {
                        x: #[verifier::truncate] (fdiv64(nx, d) as i32),
                        y: #[verifier::truncate] (fdiv64(ny, d) as i32),
                    },
                );
            }
        } else {
            r.push(
                Pos {
                    x: #[verifier::truncate] (rdiv64(nx, d) as i32),
                    y: #[verifier::truncate] (rdiv64(ny, d) as i32),
                },
            );
        }
        proof {
            assert(r@ =~= tiles_at(a, b, i as int));
        }
        r
    }

    /// Whether this entity sees that one: within `view_distance` and along
    /// a clear discretized line. Returns the first step toward the target.
    #[verifier::loop_isolation(false)]
    pub fn can_see(&self, entity: &Entity, other: &Entity, view_distance: i32) -> (r: Option<Pos>)
        requires
            pos_ok(entity.position),
            pos_ok(other.position),
            0 <= view_distance <= 1000,
        ensures
            r == can_see_spec(
                world(self.entities@),
                entity.position,
                other.position,
                view_distance as int,
            ),
    {
        let ghost w = world(self.entities@);
        let a = entity.position;
        let b = other.position;
        let distance = crate::entity::position_distance(a, b);
        if distance > view_distance {
            return None;
        }
        let mut direction: Option<Pos> = if distance == 1 {
            Some(Pos { x: b.x - a.x, y: b.y - a.y })
        } else {
            None
        };
        let mut i: i32 = 1;
        while i < distance
            invariant
                1 <= i,
                i <= distance || i == 1,
                forall|k: int| 1 <= k < i ==> (#[trigger] step_dir(w, a, b, k)) is Some,
                (if distance == 1 {
                    direction == Some(pos_sub(b, a))
                } else if distance >= 2 && i > 1 {
                    direction == (match step_dir(w, a, b, 1) {
                        Some(t) => Some(pos_sub(t, a)),
                        None => None,
                    }) && direction is Some
                } else {
                    direction is None
                }),
            decreases distance - i,
        {
            let tiles = Self::get_tiles(a, b, i);
            let mut found: Option<Pos> = None;
            if self.is_empty(tiles[0]) {
                found = Some(tiles[0]);
            } else if tiles.len() >= 2 && self.is_empty(tiles[1]) {
                found = Some(tiles[1]);
            }
            assert(found == step_dir(w, a, b, i as int));
            match found {
                None => {
                    assert(!sight_clear(w, a, b));
                    return None;
                },
                Some(t) => {
                    if i == 1 {
                        direction = Some(
                            Pos {
                                x: #[verifier::truncate] ((t.x as i64 - a.x as i64) as i32),
                                y: #[verifier::truncate] ((t.y as i64 - a.y as i64) as i32),
                            },
                        );
                    }
                },
            }
            i = i + 1;
        }
        direction
    }
}

/// Taxicab distance widened to `i64` for the scaled line arithmetic.
fn position_distance_i64(a: Pos, b: Pos) -> (r: i64)
    requires
        pos_ok(a),
        pos_ok(b),
    ensures
        r == manhattan(a, b),
{
    crate::entity::position_distance(a, b) as i64
}


/// The Moore-neighborhood offsets in the order the search scans them.
pub open spec fn moore(k: int) -> Pos {
    Pos { x: (k / 3 - 1) as i32, y: (k % 3 - 1) as i32 }
}

/// One frontier cell's neighbor scan, from offset `k` on: either the
/// searcher is discovered next to `pos`, or the unvisited empty neighbors
/// join the frontier.
pub open spec fn bfs_scan(
    w: Seq<Cell>,
    from: Pos,
    pos: Pos,
    queue: Seq<Pos>,
    used: Seq<Pos>,
    k: int,
) -> (Option<Pos>, Seq<Pos>, Seq<Pos>)
    decreases 9 - k,
{
    if k < 0 || k >= 9 {
        (None, queue, used)
    } else {
        let next = pos_add(pos, moore(k));
        if next == from {
            (Some(pos), queue, used)
        } else if !used.contains(next) && find_at(w, next) is None && in_search_field(next) {
            bfs_scan(w, from, pos, queue.push(next), used.push(next), k + 1)
        } else {
            bfs_scan(w, from, pos, queue, used, k + 1)
        }
    }
}

/// The bounded breadth-first search: pop a frontier cell, spend one unit of
/// fuel, scan its neighbors, recurse on the grown frontier.
pub open spec fn bfs_loop(w: Seq<Cell>, from: Pos, queue: Seq<Pos>, used: Seq<Pos>, fuel: int) -> Option<
    Pos,
>
    decreases fuel,
{
    if queue.len() == 0 || fuel <= 1 {
        None
    } else {
        let pos = queue[0];
        let res = bfs_scan(w, from, pos, queue.drop_first(), used, 0);
        match res.0 {
            Some(cell) => Some(cell),
            None => bfs_loop(w, from, res.1, res.2, fuel - 1),
        }
    }
}

/// What `pathfind` returns: the offset from `from` to the frontier cell
/// that first discovered it, if the bounded search finds one.
pub open spec fn pathfind_spec(w: Seq<Cell>, from: Pos, to: Pos, max_steps: int) -> Option<Pos> {
    match bfs_loop(w, from, seq![to], seq![to], max_steps) {
        Some(cell) => Some(pos_sub(cell, from)),
        None => None,
    }
}

/// Linear membership scan over the visited list.
fn vec_contains_pos(v: &Vec<Pos>, p: Pos) -> (r: bool)
    ensures
        r == v@.contains(p),
{
    let mut i: usize = 0;
    while i < v.len()
        invariant
            0 <= i <= v@.len(),
            forall|k: int| 0 <= k < i ==> v@[k] != p,
        decreases v@.len() - i,
    {
        if v[i] == p {
            assert(v@.contains(p));
            return true;
        }
        i = i + 1;
    }
    false
}

impl Level {
    /// Bounded reverse breadth-first search from `to`: expands through
    /// unoccupied Moore neighbors until `from` is discovered next to a
    /// frontier cell, and returns the offset from `from` toward that cell.
    /// Gives up once `max_distance` frontier cells have been taken.
    pub fn pathfind(&self, from: Pos, to: Pos, max_distance: i32) -> (r: Option<Pos>)
        requires
            pos_ok(from),
            pos_ok(to),
            0 <= max_distance <= 1000,
        ensures
            r == pathfind_spec(world(self.entities@), from, to, max_distance as int),
    {
        let ghost w = world(self.entities@);
        let mut queue: Vec<Pos> = Vec::new();
        let mut head: usize = 0;
        let mut used: Vec<Pos> = Vec::new();
        queue.push(to);
        used.push(to);
        let mut fuel: i32 = max_distance;
        proof {
            assert(queue@.subrange(0, 1) =~= seq![to]);
            assert(used@ =~= seq![to]);
        }
        loop
            invariant
                w == world(self.entities@),
                pos_ok(from),
                head <= queue@.len(),
                0 <= fuel <= max_distance,
                forall|j: int| 0 <= j < queue@.len() ==> in_search_field(#[trigger] queue@[j]),
                bfs_loop(
                    w,
                    from,
                    queue@.subrange(head as int, queue@.len() as int),
                    used@,
                    fuel as int,
                ) == bfs_loop(w, from, seq![to], seq![to], max_distance as int),
            ensures
                bfs_loop(w, from, seq![to], seq![to], max_distance as int) is None,
            decreases fuel,
        {
            if head >= queue.len() {
                break ;
            }
            if fuel <= 1 {
                break ;
            }
            let ghost pre_q = queue@.subrange(head as int, queue@.len() as int);
            let ghost pre_u = used@;
            let ghost pre_fuel = fuel as int;
            let pos = queue[head];
            head = head + 1;
            fuel = fuel - 1;
            let ghost scan_q0 = queue@.subrange(head as int, queue@.len() as int);
            let ghost scan_u0 = used@;
            proof {
                assert(pos == pre_q[0]);
                assert(scan_q0 =~= pre_q.drop_first());
            }
            let mut k: usize = 0;
            while k < 9
                invariant
                    w == world(self.entities@),
                    pos_ok(from),
                    0 <= k <= 9,
                    head <= queue@.len(),
                    in_search_field(pos),
                    forall|j: int| 0 <= j < queue@.len() ==> in_search_field(#[trigger] queue@[j]),
                    bfs_scan(
                        w,
                        from,
                        pos,
                        queue@.subrange(head as int, queue@.len() as int),
                        used@,
                        k as int,
                    ) == bfs_scan(w, from, pos, scan_q0, scan_u0, 0),
                    bfs_loop(w, from, pre_q, pre_u, pre_fuel) == bfs_loop(
                        w,
                        from,
                        seq![to],
                        seq![to],
                        max_distance as int,
                    ),
                    pre_q.len() > 0,
                    pre_fuel > 1,
                    fuel as int == pre_fuel - 1,
                    pos == pre_q[0],
                    scan_q0 == pre_q.drop_first(),
                    scan_u0 == pre_u,
                decreases 9 - k,
            {
                let ghost qk = queue@.subrange(head as int, queue@.len() as int);
                let dxo: i32 = (k as i32) / 3 - 1;
                let dyo: i32 = (k as i32) % 3 - 1;
                let next = Pos { x: pos.x + dxo, y: pos.y + dyo };
                proof {
                    assert(next == pos_add(pos, moore(k as int)));
                }
                if next.x == from.x && next.y == from.y {
                    proof {
                        assert(next == from);
                        assert(bfs_scan(w, from, pos, qk, used@, k as int).0 == Some(pos));
                        assert(bfs_scan(w, from, pos, scan_q0, scan_u0, 0).0 == Some(pos));
                        assert(bfs_loop(w, from, pre_q, pre_u, pre_fuel) == Some(pos));
                    }
                    let r = Some(
                        Pos {
                            x: #[verifier::truncate] ((pos.x as i64 - from.x as i64) as i32),
                            y: #[verifier::truncate] ((pos.y as i64 - from.y as i64) as i32),
                        },
                    );
                    proof {
                        assert(r == pathfind_spec(w, from, to, max_distance as int));
                    }
                    return r;
                }
                let in_field = -SEARCH_BOUND <= next.x && next.x <= SEARCH_BOUND && -SEARCH_BOUND
                    <= next.y && next.y <= SEARCH_BOUND;
                if in_field {
                    let seen = vec_contains_pos(&used, next);
                    let empty_cell = self.is_empty(next);
                    if !seen && empty_cell {
                        queue.push(next);
                        used.push(next);
                        proof {
                            assert(queue@.subrange(head as int, queue@.len() as int) =~= qk.push(
                                next,
                            ));
                        }
                    }
                }
                k = k + 1;
            }
            proof {
                let cur_q = queue@.subrange(head as int, queue@.len() as int);
                assert(bfs_scan(w, from, pos, cur_q, used@, 9) == (Option::<Pos>::None, cur_q, used@));
                assert(bfs_scan(w, from, pos, scan_q0, scan_u0, 0) == (
                    Option::<Pos>::None,
                    cur_q,
                    used@,
                ));
                assert(bfs_loop(w, from, pre_q, pre_u, pre_fuel) == bfs_loop(
                    w,
                    from,
                    cur_q,
                    used@,
                    fuel as int,
                ));
            }
        }
        proof {
            assert(pathfind_spec(w, from, to, max_distance as int) is None);
        }
        None
    }
}

} // verus!
