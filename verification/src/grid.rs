//! Spatial hash grid for neighbor search.
//!
//! Particle positions are bucketed by the integer cell
//! `(floor(x / h), floor(y / h))`, where the cell size is the
//! smoothing radius `h`.  Because of that coupling, every particle
//! within distance `h` of a point lies in the 3x3 block of cells
//! around the point's cell, so a query over that block followed by an
//! exact distance cutoff yields precisely the true neighbor set.

use vstd::prelude::*;
use std::collections::HashMap;
use crate::fixed::div_floor_i64;
use crate::kernels::valid_h;

verus! {

broadcast use vstd::std_specs::hash::group_hash_axioms;

/// Largest magnitude of a coordinate the grid accepts (2^26).
pub const POS_LIMIT: i64 = 67108864;

/// Shift that makes cell coordinates non-negative for key packing (2^21).
pub const CELL_OFFSET: i64 = 2097152;

/// Radix of the packed cell key (2^22).
pub const CELL_SPAN: i64 = 4194304;

/// A coordinate pair within the grid's accepted range.
pub open spec fn pos_bounded(p: (i64, i64)) -> bool {
    &&& -POS_LIMIT <= p.0 <= POS_LIMIT
    &&& -POS_LIMIT <= p.1 <= POS_LIMIT
}

/// Floor-division cell coordinate of a scalar coordinate.
pub open spec fn cell_of(p: int, h: int) -> int {
    p / h
}

/// Packed key of a cell coordinate pair.
pub open spec fn pack_key(cx: int, cy: int) -> int {
    (cx + CELL_OFFSET) * CELL_SPAN + (cy + CELL_OFFSET)
}

/// Packed key of a position's cell.
pub open spec fn key_of(p: (i64, i64), h: int) -> int {
    pack_key(cell_of(p.0 as int, h), cell_of(p.1 as int, h))
}

/// Squared Euclidean distance between two positions.
pub open spec fn dist2(a: (i64, i64), b: (i64, i64)) -> int {
    let dx = b.0 - a.0;
    let dy = b.1 - a.1;
    dx * dx + dy * dy
}

/// Particles `i` and `j` interact: their squared distance is below
/// the squared smoothing radius.
pub open spec fn within_range(pred: Seq<(i64, i64)>, h: int, i: int, j: int) -> bool {
    dist2(pred[i], pred[j]) < h * h
}

/// `d` lies in the 3x3 block of cells centered on `c`.
pub open spec fn in_block(cx: int, cy: int, dx: int, dy: int) -> bool {
    &&& cx - 1 <= dx <= cx + 1
    &&& cy - 1 <= dy <= cy + 1
}

/// A strictly ascending index sequence.
pub open spec fn strictly_ascending(s: Seq<usize>) -> bool {
    forall|m1: int, m2: int| 0 <= m1 < m2 < s.len() ==> s[m1] < s[m2]
}

/// Cell coordinates of bounded positions stay in the packable range.
pub proof fn lemma_cell_range(p: int, h: int)
    requires
        valid_h(h),
        -POS_LIMIT <= p <= POS_LIMIT,
    ensures
        -1048576 <= cell_of(p, h) <= 1048576,
{
    vstd::arithmetic::div_mod::lemma_fundamental_div_mod(p, h);
    assert(-1048576 <= p / h <= 1048576) by (nonlinear_arith)
        requires
            p == h * (p / h) + (p % h),
            0 <= p % h < h,
            64 <= h <= 1024,
            -67108864 <= p <= 67108864,
    ;
}

/// Packed keys are injective on in-range cell coordinates.
pub proof fn lemma_pack_injective(ax: int, ay: int, bx: int, by: int)
    requires
        -1048577 <= ax <= 1048577,
        -1048577 <= ay <= 1048577,
        -1048577 <= bx <= 1048577,
        -1048577 <= by <= 1048577,
        pack_key(ax, ay) == pack_key(bx, by),
    ensures
        ax == bx && ay == by,
{
    assert(ax == bx && ay == by) by (nonlinear_arith)
        requires
            (ax + CELL_OFFSET) * CELL_SPAN + (ay + CELL_OFFSET) == (bx + CELL_OFFSET) * CELL_SPAN
                + (by + CELL_OFFSET),
            CELL_OFFSET == 2097152,
            CELL_SPAN == 4194304,
            -1048577 <= ax <= 1048577,
            -1048577 <= ay <= 1048577,
            -1048577 <= bx <= 1048577,
            -1048577 <= by <= 1048577,
    ;
}

/// Core coupling of cell size and smoothing radius: positions closer
/// than `h` along an axis land in the same or an adjacent cell row.
pub proof fn lemma_close_cells_adjacent(a: int, b: int, h: int)
    requires
        h > 0,
        -h < b - a < h,
    ensures
        cell_of(a, h) - 1 <= cell_of(b, h) <= cell_of(a, h) + 1,
{
    vstd::arithmetic::div_mod::lemma_fundamental_div_mod(a, h);
    vstd::arithmetic::div_mod::lemma_fundamental_div_mod(b, h);
    assert(a / h - 1 <= b / h <= a / h + 1) by (nonlinear_arith)
        requires
            a == h * (a / h) + (a % h),
            b == h * (b / h) + (b % h),
            0 <= a % h < h,
            0 <= b % h < h,
            -h < b - a < h,
            h > 0,
    ;
}

/// Squared distance below `h^2` bounds each axis displacement below `h`.
pub proof fn lemma_dist2_axis_bound(a: (i64, i64), b: (i64, i64), h: int)
    requires
        h > 0,
        dist2(a, b) < h * h,
    ensures
        -h < b.0 - a.0 < h,
        -h < b.1 - a.1 < h,
{
    let dx = b.0 - a.0;
    let dy = b.1 - a.1;
    assert(-h < dx < h && -h < dy < h) by (nonlinear_arith)
        requires
            dx * dx + dy * dy < h * h,
            h > 0,
            dx == b.0 - a.0,
            dy == b.1 - a.1,
    ;
}

/// Cell coordinate pair of a position.
pub open spec fn cells_of(p: (i64, i64), h: int) -> (int, int) {
    (cell_of(p.0 as int, h), cell_of(p.1 as int, h))
}

/// Position of a cell inside the 3x3 block centered on `ci`, in
/// row-major order; in `0 .. 9` exactly when the cell is in the block.
pub open spec fn blk_of(ci: (int, int), cj: (int, int)) -> int {
    3 * (cj.0 - ci.0 + 1) + (cj.1 - ci.1 + 1)
}

/// The grid's invariant, restricted to the first `upto` positions:
/// the map indexes the bucket list by cell key, each bucket holds
/// exactly the already-inserted particle indices whose cell key is the
/// bucket's key, and each bucket is strictly ascending.
pub open spec fn grid_inv(
    m: Map<u64, usize>,
    bs: Seq<(u64, Vec<usize>)>,
    pred: Seq<(i64, i64)>,
    h: int,
    upto: int,
) -> bool {
    &&& forall|b: int|
        0 <= b < bs.len() ==> m.contains_key(#[trigger] bs[b].0) && m[bs[b].0] == b
    &&& forall|k: u64| #[trigger]
        m.contains_key(k) ==> (m[k] as int) < bs.len() && bs[m[k] as int].0 == k
    &&& forall|b: int, x: int|
        0 <= b < bs.len() && 0 <= x < bs[b].1@.len() ==> {
            &&& (#[trigger] bs[b].1@[x]) < upto
            &&& key_of(pred[bs[b].1@[x] as int], h) == bs[b].0 as int
        }
    &&& forall|b: int, x1: int, x2: int|
        0 <= b < bs.len() && 0 <= x1 < x2 < bs[b].1@.len() ==> (#[trigger] bs[b].1@[x1]) < (
        #[trigger] bs[b].1@[x2])
    &&& forall|j: int|
        0 <= j < upto ==> {
            &&& m.contains_key((key_of(#[trigger] pred[j], h)) as u64)
            &&& bs[m[(key_of(pred[j], h)) as u64] as int].1@.contains(j as usize)
        }
    &&& upto <= pred.len()
}

/// Spatial hash over a fixed set of positions: a map from packed cell
/// key to an index into the bucket list.
pub struct SpatialHash {
    map: HashMap<u64, usize>,
    buckets: Vec<(u64, Vec<usize>)>,
}

impl SpatialHash {
    /// The hash correctly indexes all of `pred`.
    pub closed spec fn wf(self, pred: Seq<(i64, i64)>, h: int) -> bool {
        grid_inv(self.map@, self.buckets@, pred, h, pred.len() as int)
    }
}

/// Membership condition maintained while `gather_neighbors` walks the
/// 3x3 block: `j` is a true neighbor of `i` whose cell has already
/// been visited (its row-major block position is below `idx`).
pub open spec fn gathered(pred: Seq<(i64, i64)>, h: int, i: int, j: int, idx: int) -> bool {
    &&& 0 <= j < pred.len()
    &&& within_range(pred, h, i, j)
    &&& in_block(
        cells_of(pred[i], h).0,
        cells_of(pred[i], h).1,
        cells_of(pred[j], h).0,
        cells_of(pred[j], h).1,
    )
    &&& blk_of(cells_of(pred[i], h), cells_of(pred[j], h)) < idx
}

impl SpatialHash {
    /// All indices whose position lies strictly within `h` of
    /// position `i` (including `i` itself), strictly ascending: the
    /// 3x3 cell-block query filtered by the exact distance cutoff.
    pub fn gather_neighbors(&self, pred: &Vec<(i64, i64)>, h: i64, i: usize) -> (r: Vec<usize>)
        requires
            self.wf(pred@, h as int),
            valid_h(h as int),
            forall|j: int| 0 <= j < pred@.len() ==> pos_bounded(#[trigger] pred@[j]),
            (i as int) < pred@.len(),
        ensures
            strictly_ascending(r@),
            forall|m: int| 0 <= m < r@.len() ==> ((#[trigger] r@[m]) as int) < pred@.len(),
            forall|j: int|
                0 <= j < pred@.len() ==> ((#[trigger] r@.contains(j as usize)) <==> within_range(
                    pred@,
                    h as int,
                    i as int,
                    j,
                )),
    {
        let n = pred.len();
        let pi = pred[i];
        let cx = div_floor_i64(pi.0, h);
        let cy = div_floor_i64(pi.1, h);
        proof {
            assert(pos_bounded(pred@[i as int]));
            lemma_cell_range(pi.0 as int, h as int);
            lemma_cell_range(pi.1 as int, h as int);
        }
        let mut cand: Vec<usize> = Vec::new();
        let mut idx: usize = 0;
        while idx < 9
            invariant
                self.wf(pred@, h as int),
                valid_h(h as int),
                forall|j: int| 0 <= j < pred@.len() ==> pos_bounded(#[trigger] pred@[j]),
                (i as int) < pred@.len(),
                n == pred@.len(),
                pi == pred@[i as int],
                cx as int == cells_of(pred@[i as int], h as int).0,
                cy as int == cells_of(pred@[i as int], h as int).1,
                -1048576 <= cx as int <= 1048576,
                -1048576 <= cy as int <= 1048576,
                idx <= 9,
                forall|m1: int, m2: int| 0 <= m1 < m2 < cand@.len() ==> cand@[m1] != cand@[m2],
                forall|y: int|
                    0 <= y < pred@.len() ==> ((#[trigger] cand@.contains(y as usize)) <==> gathered(
                        pred@,
                        h as int,
                        i as int,
                        y,
                        idx as int,
                    )),
                forall|m: int| 0 <= m < cand@.len() ==> ((#[trigger] cand@[m]) as int) < pred@.len(),
            decreases 9 - idx,
        {
            proof {
                vstd::arithmetic::div_mod::lemma_fundamental_div_mod(idx as int, 3int);
                vstd::arithmetic::div_mod::lemma_mod_division_less_than_divisor(idx as int, 3int);
            }
            let tx = cx + (idx / 3) as i64 - 1;
            let ty = cy + (idx % 3) as i64 - 1;
            let key = pack_key_exec(tx, ty);
            let got = self.map.get(&key);
            match got {
                Some(bref) => {
                    let b = *bref;
                    proof {
                        assert(self.map@.contains_key(key));
                        assert((self.map@[key] as int) < self.buckets@.len());
                    }
                    let bucket: &Vec<usize> = &self.buckets[b].1;
                    let mut x: usize = 0;
                    while x < bucket.len()
                        invariant
                            self.wf(pred@, h as int),
                            valid_h(h as int),
                            forall|j: int|
                                0 <= j < pred@.len() ==> pos_bounded(#[trigger] pred@[j]),
                            (i as int) < pred@.len(),
                            n == pred@.len(),
                            pi == pred@[i as int],
                            cx as int == cells_of(pred@[i as int], h as int).0,
                            cy as int == cells_of(pred@[i as int], h as int).1,
                            -1048576 <= cx as int <= 1048576,
                            -1048576 <= cy as int <= 1048576,
                            idx < 9,
                            tx as int == cx as int + (idx as int / 3) - 1,
                            ty as int == cy as int + (idx as int % 3) - 1,
                            key as int == pack_key(tx as int, ty as int),
                            (b as int) < self.buckets@.len(),
                            self.map@.contains_key(key),
                            self.map@[key] == b,
                            bucket@ == self.buckets@[b as int].1@,
                            x <= bucket@.len(),
                            forall|m1: int, m2: int|
                                0 <= m1 < m2 < cand@.len() ==> cand@[m1] != cand@[m2],
                            forall|m: int|
                                0 <= m < cand@.len() ==> ((#[trigger] cand@[m]) as int)
                                    < pred@.len(),
                            forall|y: int|
                                0 <= y < pred@.len() ==> ((#[trigger] cand@.contains(y as usize))
                                    <==> (gathered(pred@, h as int, i as int, y, idx as int) || (
                                bucket@.subrange(0, x as int).contains(y as usize)
                                    && within_range(pred@, h as int, i as int, y)))),
                        decreases bucket@.len() - x,
                    {
                        let j = bucket[x];
                        proof {
                            assert(self.buckets@[b as int].1@[x as int] == j);
                            assert((j as int) < pred@.len());
                            assert(pos_bounded(pred@[j as int]));
                        }
                        let pj = pred[j];
                        let dx = pj.0 - pi.0;
                        let dy = pj.1 - pi.1;
                        proof {
                            assert(0 <= dx * dx <= 36028797018963968int
                                && 0 <= dy * dy <= 36028797018963968int
                                && dx * dx + dy * dy <= 72057594037927936int) by (nonlinear_arith)
                                requires
                                    -134217729 <= dx as int <= 134217729,
                                    -134217729 <= dy as int <= 134217729,
                            ;
                            assert((h as int) * (h as int) <= 1048576) by (nonlinear_arith)
                                requires
                                    64 <= h as int <= 1024,
                            ;
                        }
                        let d2 = dx * dx + dy * dy;
                        let hh = h * h;
                        let ghost precand = cand@;
                        if d2 < hh {
                            proof {
                                lemma_member_in_visited_cell(
                                    self,
                                    pred@,
                                    h as int,
                                    i as int,
                                    b as int,
                                    x as int,
                                    idx as int,
                                    tx as int,
                                    ty as int,
                                    key,
                                );
                                assert(!cand@.contains(j)) by {
                                    if gathered(pred@, h as int, i as int, j as int, idx as int) {
                                        assert(false);
                                    }
                                    if bucket@.subrange(0, x as int).contains(j) {
                                        let w = choose|w: int|
                                            0 <= w < x && bucket@.subrange(0, x as int)[w] == j;
                                        assert(bucket@[w] == bucket@[x as int]);
                                        assert(false);
                                    }
                                };
                            }
                            cand.push(j);
                            proof {
                                assert forall|m1: int, m2: int|
                                    0 <= m1 < m2 < cand@.len() implies cand@[m1] != cand@[m2] by {
                                    if m2 == cand@.len() - 1 {
                                        assert(cand@[m1] == precand[m1]);
                                        assert(precand.contains(precand[m1]));
                                        assert(cand@[m2] == j);
                                    } else {
                                        assert(cand@[m1] == precand[m1]);
                                        assert(cand@[m2] == precand[m2]);
                                    }
                                };
                                assert forall|y: int|
                                    0 <= y < pred@.len() implies ((#[trigger] cand@.contains(
                                    y as usize,
                                )) <==> (gathered(pred@, h as int, i as int, y, idx as int) || (
                                bucket@.subrange(0, x as int + 1).contains(y as usize)
                                    && within_range(pred@, h as int, i as int, y)))) by {
                                    assert(cand@ == precand.push(j));
                                    if cand@.contains(y as usize) {
                                        let w = choose|w: int|
                                            0 <= w < cand@.len() && cand@[w] == y as usize;
                                        if w < precand.len() {
                                            assert(precand[w] == y as usize);
                                            assert(precand.contains(y as usize));
                                            if !gathered(pred@, h as int, i as int, y, idx as int) {
                                                assert(bucket@.subrange(0, x as int).contains(
                                                    y as usize,
                                                ));
                                                let sub0 = bucket@.subrange(0, x as int);
                                                let w3 = choose|w3: int|
                                                    0 <= w3 < sub0.len() && sub0[w3] == y as usize;
                                                assert(bucket@.subrange(0, x as int + 1)[w3]
                                                    == y as usize);
                                                assert(bucket@.subrange(0, x as int + 1).contains(
                                                    y as usize,
                                                ));
                                            }
                                        } else {
                                            assert(y as usize == j);
                                            assert(y == j as int);
                                            assert(within_range(pred@, h as int, i as int, y));
                                            assert(bucket@.subrange(0, x as int + 1)[x as int]
                                                == j);
                                        }
                                    }
                                    if gathered(pred@, h as int, i as int, y, idx as int) {
                                        assert(precand.contains(y as usize));
                                        let w = choose|w: int|
                                            0 <= w < precand.len() && precand[w] == y as usize;
                                        assert(cand@[w] == y as usize);
                                    }
                                    if bucket@.subrange(0, x as int + 1).contains(y as usize)
                                        && within_range(pred@, h as int, i as int, y) {
                                        let sub = bucket@.subrange(0, x as int + 1);
                                        let w = choose|w: int|
                                            0 <= w < sub.len() && sub[w] == y as usize;
                                        if w < x {
                                            assert(bucket@.subrange(0, x as int)[w] == y as usize);
                                            assert(precand.contains(y as usize));
                                            let w2 = choose|w2: int|
                                                0 <= w2 < precand.len() && precand[w2]
                                                    == y as usize;
                                            assert(cand@[w2] == y as usize);
                                        } else {
                                            assert(y as usize == j);
                                            assert(cand@[precand.len() as int] == j);
                                        }
                                    }
                                };
                            }
                        } else {
                            proof {
                                assert forall|y: int|
                                    0 <= y < pred@.len() implies ((#[trigger] cand@.contains(
                                    y as usize,
                                )) <==> (gathered(pred@, h as int, i as int, y, idx as int) || (
                                bucket@.subrange(0, x as int + 1).contains(y as usize)
                                    && within_range(pred@, h as int, i as int, y)))) by {
                                    if bucket@.subrange(0, x as int + 1).contains(y as usize)
                                        && within_range(pred@, h as int, i as int, y) {
                                        let sub = bucket@.subrange(0, x as int + 1);
                                        let w = choose|w: int|
                                            0 <= w < sub.len() && sub[w] == y as usize;
                                        if w < x {
                                            assert(bucket@.subrange(0, x as int)[w] == y as usize);
                                        } else {
                                            assert(y as usize == j);
                                            assert(y == j as int);
                                            assert(within_range(pred@, h as int, i as int,
                                                j as int));
                                            assert(false);
                                        }
                                    }
                                    if bucket@.subrange(0, x as int).contains(y as usize) {
                                        let w = choose|w: int|
                                            0 <= w < x && bucket@.subrange(0, x as int)[w]
                                                == y as usize;
                                        assert(bucket@.subrange(0, x as int + 1)[w] == y as usize);
                                    }
                                };
                            }
                        }
                        x += 1;
                    }
                    proof {
                        assert(bucket@.subrange(0, x as int) =~= bucket@);
                        lemma_cell_done(
                            self,
                            pred@,
                            h as int,
                            i as int,
                            b as int,
                            idx as int,
                            tx as int,
                            ty as int,
                            key,
                            cand@,
                        );
                    }
                },
                None => {
                    proof {
                        lemma_cell_empty(
                            self,
                            pred@,
                            h as int,
                            i as int,
                            idx as int,
                            tx as int,
                            ty as int,
                            key,
                            cand@,
                        );
                    }
                },
            }
            idx += 1;
        }
        proof {
            assert forall|y: int|
                0 <= y < pred@.len() implies (cand@.contains(y as usize) <==> within_range(
                pred@,
                h as int,
                i as int,
                y,
            )) by {
                if within_range(pred@, h as int, i as int, y) {
                    lemma_dist2_axis_bound(pred@[i as int], pred@[y], h as int);
                    lemma_close_cells_adjacent(
                        pred@[i as int].0 as int,
                        pred@[y].0 as int,
                        h as int,
                    );
                    lemma_close_cells_adjacent(
                        pred@[i as int].1 as int,
                        pred@[y].1 as int,
                        h as int,
                    );
                    assert(gathered(pred@, h as int, i as int, y, 9));
                }
            };
        }
        let r = sort_ascending(cand);
        proof {
            assert forall|m: int| 0 <= m < r@.len() implies ((#[trigger] r@[m]) as int)
                < pred@.len() by {
                assert(r@.contains(r@[m]));
            };
        }
        r
    }
}

/// Packed cell key of a bounded position, as a `u64`.
fn cell_key_exec(p: (i64, i64), h: i64) -> (k: u64)
    requires
        valid_h(h as int),
        pos_bounded(p),
    ensures
        k as int == key_of(p, h as int),
{
    let cx = div_floor_i64(p.0, h);
    let cy = div_floor_i64(p.1, h);
    proof {
        lemma_cell_range(p.0 as int, h as int);
        lemma_cell_range(p.1 as int, h as int);
        assert(((cx as int + CELL_OFFSET) * CELL_SPAN + (cy as int + CELL_OFFSET))
            <= 17592186044416int
            && 0 <= ((cx as int + CELL_OFFSET) * CELL_SPAN + (cy as int + CELL_OFFSET)))
            by (nonlinear_arith)
            requires
                -1048577 <= cx as int <= 1048577,
                -1048577 <= cy as int <= 1048577,
                CELL_OFFSET == 2097152,
                CELL_SPAN == 4194304,
        ;
    }
    ((cx + CELL_OFFSET) as u64) * (CELL_SPAN as u64) + ((cy + CELL_OFFSET) as u64)
}

/// Packed key of the cell `(tx, ty)`, used for block queries.
fn pack_key_exec(tx: i64, ty: i64) -> (k: u64)
    requires
        -1048577 <= tx <= 1048577,
        -1048577 <= ty <= 1048577,
    ensures
        k as int == pack_key(tx as int, ty as int),
{
    proof {
        assert(((tx as int + CELL_OFFSET) * CELL_SPAN + (ty as int + CELL_OFFSET))
            <= 17592186044416int
            && 0 <= ((tx as int + CELL_OFFSET) * CELL_SPAN + (ty as int + CELL_OFFSET)))
            by (nonlinear_arith)
            requires
                -1048577 <= tx as int <= 1048577,
                -1048577 <= ty as int <= 1048577,
                CELL_OFFSET == 2097152,
                CELL_SPAN == 4194304,
        ;
    }
    ((tx + CELL_OFFSET) as u64) * (CELL_SPAN as u64) + ((ty + CELL_OFFSET) as u64)
}

/// Build the spatial hash of all positions, bucketing each index by
/// the cell its position falls in.
pub fn build_grid(pred: &Vec<(i64, i64)>, h: i64) -> (g: SpatialHash)
    requires
        valid_h(h as int),
        forall|j: int| 0 <= j < pred@.len() ==> pos_bounded(#[trigger] pred@[j]),
    ensures
        g.wf(pred@, h as int),
{
    let mut map: HashMap<u64, usize> = HashMap::new();
    let mut buckets: Vec<(u64, Vec<usize>)> = Vec::new();
    let n = pred.len();
    let mut i: usize = 0;
    while i < n
        invariant
            n == pred@.len(),
            i <= n,
            valid_h(h as int),
            forall|j: int| 0 <= j < pred@.len() ==> pos_bounded(#[trigger] pred@[j]),
            grid_inv(map@, buckets@, pred@, h as int, i as int),
        decreases n - i,
    {
        let p = pred[i];
        let key = cell_key_exec(p, h);
        let existing = map.get(&key);
        match existing {
            Some(bref) => {
                let b = *bref;
                let ghost oldbs = buckets@;
                buckets[b].1.push(i);
                proof {
                    assert(buckets@[b as int].1@ == oldbs[b as int].1@.push(i));
                    lemma_grid_insert_existing(
                        map@,
                        oldbs,
                        buckets@,
                        pred@,
                        h as int,
                        i,
                        b as int,
                        key,
                    );
                }
            },
            None => {
                let idx = buckets.len();
                let ghost oldmap = map@;
                let ghost oldbs = buckets@;
                map.insert(key, idx);
                let mut nb: Vec<usize> = Vec::new();
                nb.push(i);
                buckets.push((key, nb));
                proof {
                    lemma_grid_insert_new(
                        oldmap,
                        map@,
                        oldbs,
                        buckets@,
                        pred@,
                        h as int,
                        i,
                        idx,
                        key,
                    );
                }
            },
        }
        i += 1;
    }
    SpatialHash { map, buckets }
}

/// One insertion step of `build_grid` into an existing bucket keeps
/// the grid invariant.
proof fn lemma_grid_insert_existing(
    m: Map<u64, usize>,
    oldbs: Seq<(u64, Vec<usize>)>,
    newbs: Seq<(u64, Vec<usize>)>,
    pred: Seq<(i64, i64)>,
    h: int,
    i: usize,
    b: int,
    key: u64,
)
    requires
        grid_inv(m, oldbs, pred, h, i as int),
        0 <= (i as int) < pred.len(),
        key as int == key_of(pred[i as int], h),
        m.contains_key(key),
        m[key] as int == b,
        0 <= b < oldbs.len(),
        newbs.len() == oldbs.len(),
        newbs[b].0 == oldbs[b].0,
        newbs[b].1@ == oldbs[b].1@.push(i),
        forall|b2: int| 0 <= b2 < oldbs.len() && b2 != b ==> newbs[b2] == oldbs[b2],
    ensures
        grid_inv(m, newbs, pred, h, i + 1),
{
    assert(oldbs[b].0 == key);
    assert forall|b2: int, x: int|
        0 <= b2 < newbs.len() && 0 <= x < newbs[b2].1@.len() implies {
        &&& (#[trigger] newbs[b2].1@[x]) < i + 1
        &&& key_of(pred[newbs[b2].1@[x] as int], h) == newbs[b2].0 as int
    } by {
        if b2 == b {
            if x < oldbs[b].1@.len() {
                assert(newbs[b2].1@[x] == oldbs[b].1@[x]);
            } else {
                assert(newbs[b2].1@[x] == i);
            }
        } else {
            assert(newbs[b2] == oldbs[b2]);
        }
    };
    assert forall|b2: int, x1: int, x2: int|
        0 <= b2 < newbs.len() && 0 <= x1 < x2 < newbs[b2].1@.len() implies (
    #[trigger] newbs[b2].1@[x1]) < (#[trigger] newbs[b2].1@[x2]) by {
        if b2 == b {
            if x2 < oldbs[b].1@.len() {
                assert(newbs[b2].1@[x1] == oldbs[b].1@[x1]);
                assert(newbs[b2].1@[x2] == oldbs[b].1@[x2]);
            } else {
                assert(newbs[b2].1@[x2] == i);
                assert(newbs[b2].1@[x1] == oldbs[b].1@[x1]);
                assert(oldbs[b].1@[x1] < i as int);
            }
        } else {
            assert(newbs[b2] == oldbs[b2]);
        }
    };
    assert forall|j: int| 0 <= j < i + 1 implies {
        &&& m.contains_key((key_of(#[trigger] pred[j], h)) as u64)
        &&& newbs[m[(key_of(pred[j], h)) as u64] as int].1@.contains(j as usize)
    } by {
        if j < i {
            let kj = (key_of(pred[j], h)) as u64;
            assert(m.contains_key(kj));
            let bj = m[kj] as int;
            assert(oldbs[bj].1@.contains(j as usize));
            if bj == b {
                let w = choose|w: int| 0 <= w < oldbs[b].1@.len() && oldbs[b].1@[w] == j as usize;
                assert(newbs[b].1@[w] == j as usize);
            } else {
                assert(newbs[bj] == oldbs[bj]);
            }
        } else {
            assert(newbs[b].1@[oldbs[b].1@.len() as int] == i);
            assert(newbs[b].1@.contains(i));
        }
    };
}

/// One insertion step of `build_grid` into a fresh bucket keeps the
/// grid invariant.
proof fn lemma_grid_insert_new(
    oldm: Map<u64, usize>,
    newm: Map<u64, usize>,
    oldbs: Seq<(u64, Vec<usize>)>,
    newbs: Seq<(u64, Vec<usize>)>,
    pred: Seq<(i64, i64)>,
    h: int,
    i: usize,
    idx: usize,
    key: u64,
)
    requires
        grid_inv(oldm, oldbs, pred, h, i as int),
        0 <= (i as int) < pred.len(),
        key as int == key_of(pred[i as int], h),
        !oldm.contains_key(key),
        idx as int == oldbs.len(),
        newm == oldm.insert(key, idx),
        newbs.len() == oldbs.len() + 1,
        forall|b2: int| 0 <= b2 < oldbs.len() ==> newbs[b2] == oldbs[b2],
        newbs[oldbs.len() as int].0 == key,
        newbs[oldbs.len() as int].1@.len() == 1,
        newbs[oldbs.len() as int].1@[0] == i,
    ensures
        grid_inv(newm, newbs, pred, h, i + 1),
{
    let nb = oldbs.len() as int;
    assert forall|b2: int|
        0 <= b2 < newbs.len() implies newm.contains_key(#[trigger] newbs[b2].0) && newm[newbs[b2].0]
        == b2 by {
        if b2 < nb {
            assert(newbs[b2] == oldbs[b2]);
            assert(oldm.contains_key(oldbs[b2].0));
            assert(oldbs[b2].0 != key);
        }
    };
    assert forall|k: u64| #[trigger]
        newm.contains_key(k) implies (newm[k] as int) < newbs.len() && newbs[newm[k] as int].0
        == k by {
        if k != key {
            assert(oldm.contains_key(k));
            assert(newbs[oldm[k] as int] == oldbs[oldm[k] as int]);
        }
    };
    assert forall|b2: int, x: int|
        0 <= b2 < newbs.len() && 0 <= x < newbs[b2].1@.len() implies {
        &&& (#[trigger] newbs[b2].1@[x]) < i + 1
        &&& key_of(pred[newbs[b2].1@[x] as int], h) == newbs[b2].0 as int
    } by {
        if b2 < nb {
            assert(newbs[b2] == oldbs[b2]);
        } else {
            assert(newbs[b2].1@[x] == i);
        }
    };
    assert forall|b2: int, x1: int, x2: int|
        0 <= b2 < newbs.len() && 0 <= x1 < x2 < newbs[b2].1@.len() implies (
    #[trigger] newbs[b2].1@[x1]) < (#[trigger] newbs[b2].1@[x2]) by {
        if b2 < nb {
            assert(newbs[b2] == oldbs[b2]);
        }
    };
    assert forall|j: int| 0 <= j < i + 1 implies {
        &&& newm.contains_key((key_of(#[trigger] pred[j], h)) as u64)
        &&& newbs[newm[(key_of(pred[j], h)) as u64] as int].1@.contains(j as usize)
    } by {
        let kj = (key_of(pred[j], h)) as u64;
        if j < i {
            assert(oldm.contains_key(kj));
            assert(kj != key);
            assert(newbs[oldm[kj] as int] == oldbs[oldm[kj] as int]);
            assert(oldbs[oldm[kj] as int].1@.contains(j as usize));
        } else {
            assert(kj == key);
            assert(newbs[nb].1@[0] == i);
            assert(newbs[nb].1@.contains(i));
        }
    };
}

/// Sort a duplicate-free index vector into strictly ascending order,
/// preserving membership.
pub fn sort_ascending(v: Vec<usize>) -> (r: Vec<usize>)
    requires
        forall|m1: int, m2: int| 0 <= m1 < m2 < v@.len() ==> v@[m1] != v@[m2],
    ensures
        strictly_ascending(r@),
        forall|x: usize| r@.contains(x) <==> v@.contains(x),
        r@.len() == v@.len(),
{
    let mut out: Vec<usize> = Vec::new();
    let mut i: usize = 0;
    while i < v.len()
        invariant
            i <= v@.len(),
            out@.len() == i,
            strictly_ascending(out@),
            forall|x: usize| out@.contains(x) <==> v@.subrange(0, i as int).contains(x),
            forall|m1: int, m2: int| 0 <= m1 < m2 < v@.len() ==> v@[m1] != v@[m2],
        decreases v@.len() - i,
    {
        let x = v[i];
        let mut p: usize = 0;
        while p < out.len() && out[p] < x
            invariant
                p <= out@.len(),
                forall|q: int| 0 <= q < p ==> out@[q] < x,
            decreases out@.len() - p,
        {
            p += 1;
        }
        proof {
            // x is not yet in out: v[i] differs from all earlier entries.
            assert(!v@.subrange(0, i as int).contains(x)) by {
                if v@.subrange(0, i as int).contains(x) {
                    let m = choose|m: int|
                        0 <= m < i && v@.subrange(0, i as int)[m] == x;
                    assert(v@[m] != v@[i as int]);
                    assert(v@.subrange(0, i as int)[m] == v@[m]);
                }
            };
            assert(!out@.contains(x));
            if p < out@.len() {
                assert(out@[p as int] != x) by {
                    assert(out@.contains(out@[p as int]));
                };
            }
            out@.insert_ensures(p as int, x);
        }
        let ghost pre = out@;
        out.insert(p, x);
        proof {
            assert(strictly_ascending(out@)) by {
                assert forall|m1: int, m2: int|
                    0 <= m1 < m2 < out@.len() implies out@[m1] < out@[m2] by {
                    if m2 < p {
                        assert(out@[m1] == pre[m1] && out@[m2] == pre[m2]);
                    } else if m1 < p && m2 == p {
                        assert(out@[m1] == pre[m1] && out@[m2] == x);
                    } else if m1 < p && m2 > p {
                        assert(out@[m1] == pre[m1] && out@[m2] == pre[m2 - 1]);
                        if m2 - 1 > p {
                            assert(pre[p as int] < pre[m2 - 1]);
                        }
                    } else if m1 == p {
                        assert(out@[m1] == x && out@[m2] == pre[m2 - 1]);
                        if m2 - 1 > p {
                            assert(pre[p as int] < pre[m2 - 1]);
                        }
                    } else {
                        assert(out@[m1] == pre[m1 - 1] && out@[m2] == pre[m2 - 1]);
                    }
                };
            };
            assert forall|y: usize| out@.contains(y) implies v@.subrange(
                0,
                i as int + 1,
            ).contains(y) by {
                let m = choose|m: int| 0 <= m < out@.len() && out@[m] == y;
                if m == p {
                    assert(v@.subrange(0, i as int + 1)[i as int] == y);
                } else {
                    let mm: int = if m < p {
                        m
                    } else {
                        m - 1
                    };
                    assert(out@[m] == pre[mm]);
                    assert(pre.contains(y));
                    let w = choose|w: int| 0 <= w < i && v@.subrange(0, i as int)[w] == y;
                    assert(v@.subrange(0, i as int + 1)[w] == y);
                }
            };
            assert forall|y: usize| v@.subrange(0, i as int + 1).contains(y) implies out@.contains(
                y,
            ) by {
                let sub = v@.subrange(0, i as int + 1);
                let m = choose|m: int| 0 <= m < sub.len() && sub[m] == y;
                if m == i {
                    assert(out@[p as int] == y);
                } else {
                    assert(v@.subrange(0, i as int)[m] == y);
                    assert(pre.contains(y));
                    let w = choose|w: int| 0 <= w < pre.len() && pre[w] == y;
                    if w < p {
                        assert(out@[w] == y);
                    } else {
                        assert(out@[w + 1] == y);
                    }
                }
            };
        }
        i += 1;
    }
    proof {
        assert(v@.subrange(0, v@.len() as int) =~= v@);
    }
    out
}

/// A block position below 9 pins the cell down exactly.
proof fn lemma_blk_unique(cix: int, ciy: int, cjx: int, cjy: int, idx: int)
    requires
        in_block(cix, ciy, cjx, cjy),
        blk_of((cix, ciy), (cjx, cjy)) == idx,
        0 <= idx < 9,
    ensures
        cjx == cix + idx / 3 - 1,
        cjy == ciy + idx % 3 - 1,
{
    vstd::arithmetic::div_mod::lemma_fundamental_div_mod(idx, 3int);
    vstd::arithmetic::div_mod::lemma_mod_division_less_than_divisor(idx, 3int);
    vstd::arithmetic::div_mod::lemma_div_pos_is_pos(idx, 3int);
    let a = cjx - cix + 1;
    let bb = cjy - ciy + 1;
    assert(3 * a + bb == 3 * (idx / 3) + idx % 3);
    assert(0 <= idx % 3 < 3);
    assert(3 * (a - idx / 3) == idx % 3 - bb);
    assert(a == idx / 3 && bb == idx % 3) by (nonlinear_arith)
        requires
            3 * (a - idx / 3) == idx % 3 - bb,
            0 <= bb <= 2,
            0 <= idx % 3 < 3,
    ;
}

/// A member of the bucket for the block cell `idx` sits exactly in
/// that cell, so it has not been gathered from an earlier cell.
proof fn lemma_member_in_visited_cell(
    g: &SpatialHash,
    pred: Seq<(i64, i64)>,
    h: int,
    i: int,
    b: int,
    x: int,
    idx: int,
    tx: int,
    ty: int,
    key: u64,
)
    requires
        g.wf(pred, h),
        valid_h(h),
        pred.len() <= usize::MAX,
        forall|j: int| 0 <= j < pred.len() ==> pos_bounded(#[trigger] pred[j]),
        0 <= i < pred.len(),
        0 <= idx < 9,
        tx == cells_of(pred[i], h).0 + idx / 3 - 1,
        ty == cells_of(pred[i], h).1 + idx % 3 - 1,
        -1048577 <= tx <= 1048577,
        -1048577 <= ty <= 1048577,
        key as int == pack_key(tx, ty),
        g.map@.contains_key(key),
        g.map@[key] as int == b,
        0 <= b < g.buckets@.len(),
        0 <= x < g.buckets@[b].1@.len(),
    ensures
        ({
            let j = g.buckets@[b].1@[x] as int;
            &&& cells_of(pred[j], h).0 == tx
            &&& cells_of(pred[j], h).1 == ty
            &&& blk_of(cells_of(pred[i], h), cells_of(pred[j], h)) == idx
            &&& !gathered(pred, h, i, j, idx)
        }),
{
    let j = g.buckets@[b].1@[x] as int;
    assert(0 <= j < pred.len() && key_of(pred[j], h) == g.buckets@[b].0 as int);
    assert(g.buckets@[b].0 == key);
    assert(pos_bounded(pred[j]));
    lemma_cell_range(pred[j].0 as int, h);
    lemma_cell_range(pred[j].1 as int, h);
    lemma_pack_injective(cells_of(pred[j], h).0, cells_of(pred[j], h).1, tx, ty);
    vstd::arithmetic::div_mod::lemma_fundamental_div_mod(idx, 3int);
    vstd::arithmetic::div_mod::lemma_mod_division_less_than_divisor(idx, 3int);
}

/// After a bucket has been fully scanned, the gathered set advances
/// by one cell of the block.
proof fn lemma_cell_done(
    g: &SpatialHash,
    pred: Seq<(i64, i64)>,
    h: int,
    i: int,
    b: int,
    idx: int,
    tx: int,
    ty: int,
    key: u64,
    cand: Seq<usize>,
)
    requires
        g.wf(pred, h),
        valid_h(h),
        pred.len() <= usize::MAX,
        forall|j: int| 0 <= j < pred.len() ==> pos_bounded(#[trigger] pred[j]),
        0 <= i < pred.len(),
        0 <= idx < 9,
        tx == cells_of(pred[i], h).0 + idx / 3 - 1,
        ty == cells_of(pred[i], h).1 + idx % 3 - 1,
        -1048577 <= tx <= 1048577,
        -1048577 <= ty <= 1048577,
        key as int == pack_key(tx, ty),
        g.map@.contains_key(key),
        g.map@[key] as int == b,
        0 <= b < g.buckets@.len(),
        forall|y: int|
            0 <= y < pred.len() ==> ((#[trigger] cand.contains(y as usize)) <==> (gathered(
                pred,
                h,
                i,
                y,
                idx,
            ) || (g.buckets@[b].1@.contains(y as usize) && within_range(pred, h, i, y)))),
    ensures
        forall|y: int|
            0 <= y < pred.len() ==> ((#[trigger] cand.contains(y as usize)) <==> gathered(
                pred,
                h,
                i,
                y,
                idx + 1,
            )),
{
    vstd::arithmetic::div_mod::lemma_fundamental_div_mod(idx, 3int);
    vstd::arithmetic::div_mod::lemma_mod_division_less_than_divisor(idx, 3int);
    assert forall|y: int|
        0 <= y < pred.len() implies ((#[trigger] cand.contains(y as usize)) <==> gathered(
        pred,
        h,
        i,
        y,
        idx + 1,
    )) by {
        if cand.contains(y as usize) {
            if gathered(pred, h, i, y, idx) {
                assert(gathered(pred, h, i, y, idx + 1));
            } else {
                assert(g.buckets@[b].1@.contains(y as usize));
                let w = choose|w: int|
                    0 <= w < g.buckets@[b].1@.len() && g.buckets@[b].1@[w] == y as usize;
                lemma_member_in_visited_cell(g, pred, h, i, b, w, idx, tx, ty, key);
                assert(g.buckets@[b].1@[w] as int == y);
                assert(cells_of(pred[y], h).0 == tx && cells_of(pred[y], h).1 == ty);
                assert(0 <= idx / 3 <= 2 && 0 <= idx % 3 <= 2);
                assert(in_block(
                    cells_of(pred[i], h).0,
                    cells_of(pred[i], h).1,
                    cells_of(pred[y], h).0,
                    cells_of(pred[y], h).1,
                ));
                assert(within_range(pred, h, i, y));
                assert(gathered(pred, h, i, y, idx + 1));
            }
        }
        if gathered(pred, h, i, y, idx + 1) && !gathered(pred, h, i, y, idx) {
            assert(blk_of(cells_of(pred[i], h), cells_of(pred[y], h)) == idx);
            lemma_blk_unique(
                cells_of(pred[i], h).0,
                cells_of(pred[i], h).1,
                cells_of(pred[y], h).0,
                cells_of(pred[y], h).1,
                idx,
            );
            assert(key_of(pred[y], h) == pack_key(tx, ty));
            assert(g.map@.contains_key((key_of(pred[y], h)) as u64));
            assert((key_of(pred[y], h)) as u64 == key);
            assert(g.buckets@[b].1@.contains(y as usize));
            assert(cand.contains(y as usize));
        }
    };
}

/// A block cell with no bucket holds no particles, so the gathered
/// set is unchanged when the query skips it.
proof fn lemma_cell_empty(
    g: &SpatialHash,
    pred: Seq<(i64, i64)>,
    h: int,
    i: int,
    idx: int,
    tx: int,
    ty: int,
    key: u64,
    cand: Seq<usize>,
)
    requires
        g.wf(pred, h),
        valid_h(h),
        pred.len() <= usize::MAX,
        forall|j: int| 0 <= j < pred.len() ==> pos_bounded(#[trigger] pred[j]),
        0 <= i < pred.len(),
        0 <= idx < 9,
        tx == cells_of(pred[i], h).0 + idx / 3 - 1,
        ty == cells_of(pred[i], h).1 + idx % 3 - 1,
        -1048577 <= tx <= 1048577,
        -1048577 <= ty <= 1048577,
        key as int == pack_key(tx, ty),
        !g.map@.contains_key(key),
        forall|y: int|
            0 <= y < pred.len() ==> ((#[trigger] cand.contains(y as usize)) <==> gathered(
                pred,
                h,
                i,
                y,
                idx,
            )),
    ensures
        forall|y: int|
            0 <= y < pred.len() ==> ((#[trigger] cand.contains(y as usize)) <==> gathered(
                pred,
                h,
                i,
                y,
                idx + 1,
            )),
{
    vstd::arithmetic::div_mod::lemma_fundamental_div_mod(idx, 3int);
    vstd::arithmetic::div_mod::lemma_mod_division_less_than_divisor(idx, 3int);
    assert forall|y: int|
        0 <= y < pred.len() implies ((#[trigger] cand.contains(y as usize)) <==> gathered(
        pred,
        h,
        i,
        y,
        idx + 1,
    )) by {
        if gathered(pred, h, i, y, idx + 1) && !gathered(pred, h, i, y, idx) {
            lemma_blk_unique(
                cells_of(pred[i], h).0,
                cells_of(pred[i], h).1,
                cells_of(pred[y], h).0,
                cells_of(pred[y], h).1,
                idx,
            );
            assert(key_of(pred[y], h) == pack_key(tx, ty));
            assert(g.map@.contains_key((key_of(pred[y], h)) as u64));
            assert(false);
        }
    };
}

/// Exact squared distance of two bounded positions.
pub fn dist2_exec(a: (i64, i64), b: (i64, i64)) -> (d2: i64)
    requires
        pos_bounded(a),
        pos_bounded(b),
    ensures
        d2 as int == dist2(a, b),
        0 <= d2 <= 72057594037927936,
{
    let dx = b.0 - a.0;
    let dy = b.1 - a.1;
    proof {
        assert(0 <= dx * dx <= 36028797018963968int && 0 <= dy * dy <= 36028797018963968int
            && dx * dx + dy * dy <= 72057594037927936int) by (nonlinear_arith)
            requires
                -134217729 <= dx as int <= 134217729,
                -134217729 <= dy as int <= 134217729,
        ;
    }
    dx * dx + dy * dy
}

/// No member of a strictly ascending sequence falls strictly between
/// two adjacent entries (or below the first).
pub proof fn lemma_ascending_gap(s: Seq<usize>, k: int, y: usize)
    requires
        strictly_ascending(s),
        0 <= k < s.len(),
        y < s[k],
        k > 0 ==> s[k - 1] < y,
    ensures
        !s.contains(y),
{
    if s.contains(y) {
        let m = choose|m: int| 0 <= m < s.len() && s[m] == y;
        if m < k {
            assert(s[m] <= s[k - 1]);
        } else {
            assert(s[k] <= s[m]);
        }
    }
}

/// No member of a strictly ascending sequence lies beyond its last
/// entry.
pub proof fn lemma_ascending_tail(s: Seq<usize>, y: usize)
    requires
        strictly_ascending(s),
        s.len() > 0 ==> s[s.len() - 1] < y,
    ensures
        !s.contains(y),
{
    if s.contains(y) {
        let m = choose|m: int| 0 <= m < s.len() && s[m] == y;
        assert(s[m] <= s[s.len() - 1]);
    }
}

} // verus!
