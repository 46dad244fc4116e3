//! Projection of cluster centroids onto a bounded 2-D integer grid.
//!
//! Only the first two components of each centroid are used; there is no
//! rotation or reduction.  Each axis is scaled linearly from the range
//! of the included points onto the grid; an axis whose minimum and
//! maximum coincide is fixed at the grid's midpoint instead of dividing
//! by zero.  When several points land on the same cell, the last one
//! placed wins.

use vstd::prelude::*;

use vstd::arithmetic::div_mod::{lemma_div_is_ordered, lemma_div_multiples_vanish};
use vstd::arithmetic::mul::lemma_mul_inequality;

use crate::cluster::ClusterSummary;

verus! {

/// The largest magnitude a fixed-point centroid coordinate may carry.
pub const MAX_COORDINATE: i64 = 0xe8d4a51000;

/// The largest grid extent the projector accepts.
pub const MAX_GRID_EXTENT: usize = 0x10000;

/// One centroid restricted to its first two components, tagged with
/// the position of its cluster in the caller's cluster list.
#[derive(Debug, Clone, PartialEq, Eq)]
pub struct CentroidSample {
    pub index: usize,
    pub x: i64,
    pub y: i64,
}

/// One projected point on the grid.
#[derive(Debug, Clone, PartialEq, Eq)]
pub struct GridPoint {
    pub index: usize,
    pub x: usize,
    pub y: usize,
}

/// The least first coordinate among the samples.
pub open spec fn min_x_of(ss: Seq<CentroidSample>) -> int
    decreases ss.len(),
{
    if ss.len() <= 1 {
        if ss.len() == 1 {
            ss[0].x as int
        } else {
            0
        }
    } else {
        let rest = min_x_of(ss.drop_last());
        if ss.last().x < rest {
            ss.last().x as int
        } else {
            rest
        }
    }
}

/// The greatest first coordinate among the samples.
pub open spec fn max_x_of(ss: Seq<CentroidSample>) -> int
    decreases ss.len(),
{
    if ss.len() <= 1 {
        if ss.len() == 1 {
            ss[0].x as int
        } else {
            0
        }
    } else {
        let rest = max_x_of(ss.drop_last());
        if ss.last().x > rest {
            ss.last().x as int
        } else {
            rest
        }
    }
}

/// The least second coordinate among the samples.
pub open spec fn min_y_of(ss: Seq<CentroidSample>) -> int
    decreases ss.len(),
{
    if ss.len() <= 1 {
        if ss.len() == 1 {
            ss[0].y as int
        } else {
            0
        }
    } else {
        let rest = min_y_of(ss.drop_last());
        if ss.last().y < rest {
            ss.last().y as int
        } else {
            rest
        }
    }
}

/// The greatest second coordinate among the samples.
pub open spec fn max_y_of(ss: Seq<CentroidSample>) -> int
    decreases ss.len(),
{
    if ss.len() <= 1 {
        if ss.len() == 1 {
            ss[0].y as int
        } else {
            0
        }
    } else {
        let rest = max_y_of(ss.drop_last());
        if ss.last().y > rest {
            ss.last().y as int
        } else {
            rest
        }
    }
}

/// Every sample's coordinates lie between the axis extremes.
pub proof fn lemma_extremes_bound(ss: Seq<CentroidSample>)
    ensures
        forall|t: int|
            0 <= t < ss.len() ==> min_x_of(ss) <= (#[trigger] ss[t]).x <= max_x_of(ss) && min_y_of(
                ss,
            ) <= ss[t].y <= max_y_of(ss),
        ss.len() > 0 ==> exists|t: int| 0 <= t < ss.len() && (#[trigger] ss[t]).x == min_x_of(ss),
        ss.len() > 0 ==> exists|t: int| 0 <= t < ss.len() && (#[trigger] ss[t]).x == max_x_of(ss),
        ss.len() > 0 ==> exists|t: int| 0 <= t < ss.len() && (#[trigger] ss[t]).y == min_y_of(ss),
        ss.len() > 0 ==> exists|t: int| 0 <= t < ss.len() && (#[trigger] ss[t]).y == max_y_of(ss),
    decreases ss.len(),
{
    if ss.len() > 1 {
        lemma_extremes_bound(ss.drop_last());
        assert forall|t: int|
            0 <= t < ss.len() implies min_x_of(ss) <= (#[trigger] ss[t]).x <= max_x_of(ss)
            && min_y_of(ss) <= ss[t].y <= max_y_of(ss) by {
            if t < ss.len() - 1 {
                assert(ss.drop_last()[t] == ss[t]);
            }
        }
        let dl = ss.drop_last();
        let tx = choose|t: int| 0 <= t < dl.len() && (#[trigger] dl[t]).x == min_x_of(dl);
        assert(ss[tx].x == min_x_of(dl));
        let tx2 = choose|t: int| 0 <= t < dl.len() && (#[trigger] dl[t]).x == max_x_of(dl);
        assert(ss[tx2].x == max_x_of(dl));
        let ty = choose|t: int| 0 <= t < dl.len() && (#[trigger] dl[t]).y == min_y_of(dl);
        assert(ss[ty].y == min_y_of(dl));
        let ty2 = choose|t: int| 0 <= t < dl.len() && (#[trigger] dl[t]).y == max_y_of(dl);
        assert(ss[ty2].y == max_y_of(dl));
        assert(ss[ss.len() - 1] == ss.last());
    } else if ss.len() == 1 {
        assert(ss[0].x == min_x_of(ss));
    }
}

/// Bounded factors give a bounded product.
proof fn lemma_mul_bounds(a: int, b: int, ca: int, cb: int)
    by (nonlinear_arith)
    requires
        0 <= a <= ca,
        0 <= b <= cb,
    ensures
        0 <= a * b <= ca * cb,
{
}

/// One axis of the linear scaling: a value in `[lo, hi]` lands on
/// `(v - lo) * (extent - 1) / (hi - lo)`, and on the midpoint
/// `extent / 2` when the axis range is degenerate.
pub open spec fn project_coord(v: int, lo: int, hi: int, extent: int) -> int {
    if hi > lo {
        (v - lo) * (extent - 1) / (hi - lo)
    } else {
        extent / 2
    }
}

/// Degenerate projection law: when every point shares one coordinate,
/// that axis's projection is the grid midpoint for every value, never a
/// division by zero.
pub proof fn lemma_degenerate_axis_midpoint(v: int, lo: int, extent: int)
    ensures
        project_coord(v, lo, lo, extent) == extent / 2,
{
}

/// The scaled coordinate stays on the grid.
proof fn lemma_project_coord_bounds(v: int, lo: int, hi: int, extent: int)
    requires
        lo <= v <= hi,
        extent >= 1,
    ensures
        0 <= project_coord(v, lo, hi, extent) < extent,
{
    if hi > lo {
        let d = hi - lo;
        let e = extent - 1;
        lemma_mul_inequality(v - lo, d, e);
        lemma_div_is_ordered((v - lo) * e, d * e, d);
        lemma_div_multiples_vanish(e, d);
        assert(d * e == e * d) by (nonlinear_arith);
        assert((v - lo) * e >= 0) by (nonlinear_arith)
            requires
                v - lo >= 0,
                e >= 0,
        ;
        assert((v - lo) * e / d >= 0) by {
            vstd::arithmetic::div_mod::lemma_div_pos_is_pos((v - lo) * e, d);
        }
    }
}

/// Projects the samples onto a `width` by `height` grid.  Each point
/// keeps its cluster index; its coordinates are the linear scaling of
/// the sample coordinates over the per-axis ranges of all samples, with
/// a degenerate axis fixed at the grid midpoint.
pub fn project_samples(samples: &Vec<CentroidSample>, width: usize, height: usize) -> (r: Vec<
    GridPoint,
>)
    requires
        1 <= width <= MAX_GRID_EXTENT,
        1 <= height <= MAX_GRID_EXTENT,
        forall|t: int|
            0 <= t < samples@.len() ==> -MAX_COORDINATE <= (#[trigger] samples@[t]).x
                <= MAX_COORDINATE && -MAX_COORDINATE <= samples@[t].y <= MAX_COORDINATE,
    ensures
        r@.len() == samples@.len(),
        forall|t: int|
            0 <= t < r@.len() ==> (#[trigger] r@[t]).index == samples@[t].index && r@[t].x
                == project_coord(
                samples@[t].x as int,
                min_x_of(samples@),
                max_x_of(samples@),
                width as int,
            ) && r@[t].y == project_coord(
                samples@[t].y as int,
                min_y_of(samples@),
                max_y_of(samples@),
                height as int,
            ) && r@[t].x < width && r@[t].y < height,
{
    let mut r: Vec<GridPoint> = Vec::new();
    let n = samples.len();
    if n == 0 {
        return r;
    }
    // per-axis extremes
    let mut min_x = samples[0].x;
    let mut max_x = samples[0].x;
    let mut min_y = samples[0].y;
    let mut max_y = samples[0].y;
    for t in 1..n
        invariant
            n == samples@.len(),
            1 <= t <= n,
            min_x == min_x_of(samples@.take(t as int)),
            max_x == max_x_of(samples@.take(t as int)),
            min_y == min_y_of(samples@.take(t as int)),
            max_y == max_y_of(samples@.take(t as int)),
    {
        proof {
            assert(samples@.take(t + 1).drop_last() =~= samples@.take(t as int));
        }
        if samples[t].x < min_x {
            min_x = samples[t].x;
        }
        if samples[t].x > max_x {
            max_x = samples[t].x;
        }
        if samples[t].y < min_y {
            min_y = samples[t].y;
        }
        if samples[t].y > max_y {
            max_y = samples[t].y;
        }
    }
    proof {
        assert(samples@.take(n as int) =~= samples@);
        lemma_extremes_bound(samples@);
        assert(min_x_of(samples@) <= samples@[0].x <= max_x_of(samples@));
        assert(min_y_of(samples@) <= samples@[0].y <= max_y_of(samples@));
    }
    for t in 0..n
        invariant
            n == samples@.len(),
            1 <= width <= MAX_GRID_EXTENT,
            1 <= height <= MAX_GRID_EXTENT,
            forall|t2: int|
                0 <= t2 < samples@.len() ==> -MAX_COORDINATE <= (#[trigger] samples@[t2]).x
                    <= MAX_COORDINATE && -MAX_COORDINATE <= samples@[t2].y <= MAX_COORDINATE,
            min_x == min_x_of(samples@),
            max_x == max_x_of(samples@),
            min_y == min_y_of(samples@),
            max_y == max_y_of(samples@),
            -MAX_COORDINATE <= min_x <= max_x <= MAX_COORDINATE,
            -MAX_COORDINATE <= min_y <= max_y <= MAX_COORDINATE,
            r@.len() == t,
            forall|t2: int|
                0 <= t2 < r@.len() ==> (#[trigger] r@[t2]).index == samples@[t2].index && r@[t2].x
                    == project_coord(
                    samples@[t2].x as int,
                    min_x_of(samples@),
                    max_x_of(samples@),
                    width as int,
                ) && r@[t2].y == project_coord(
                    samples@[t2].y as int,
                    min_y_of(samples@),
                    max_y_of(samples@),
                    height as int,
                ) && r@[t2].x < width && r@[t2].y < height,
    {
        proof {
            lemma_extremes_bound(samples@);
        }
        let s = &samples[t];
        proof {
            lemma_mul_bounds(
                s.x - min_x,
                width as int - 1,
                2 * MAX_COORDINATE as int,
                MAX_GRID_EXTENT as int,
            );
            lemma_mul_bounds(
                s.y - min_y,
                height as int - 1,
                2 * MAX_COORDINATE as int,
                MAX_GRID_EXTENT as int,
            );
        }
        let gx: usize = if max_x > min_x {
            let num = (s.x - min_x) * (width as i64 - 1);
            let q = num / (max_x - min_x);
            proof {
                lemma_project_coord_bounds(s.x as int, min_x as int, max_x as int, width as int);
            }
            q as usize
        } else {
            width / 2
        };
        let gy: usize = if max_y > min_y {
            let num = (s.y - min_y) * (height as i64 - 1);
            let q = num / (max_y - min_y);
            proof {
                lemma_project_coord_bounds(s.y as int, min_y as int, max_y as int, height as int);
            }
            q as usize
        } else {
            height / 2
        };
        r.push(GridPoint { index: s.index, x: gx, y: gy });
    }
    r
}

/// Whether a sample carries the first two centroid components of a
/// summary, with zero standing in for missing components.
pub open spec fn sample_matches(smp: CentroidSample, s: ClusterSummary) -> bool {
    match s.centroid {
        Option::Some(v) => smp.x == (if v@.len() > 0 {
            v@[0]
        } else {
            0
        }) && smp.y == (if v@.len() > 1 {
            v@[1]
        } else {
            0
        }),
        Option::None => false,
    }
}

/// Collects one sample per cluster summary that carries a centroid,
/// keeping each summary's position as the sample index; summaries
/// without a centroid are skipped.
pub fn centroid_samples(summaries: &Vec<ClusterSummary>) -> (r: Vec<CentroidSample>)
    ensures
        forall|t1: int, t2: int|
            0 <= t1 < t2 < r@.len() ==> (#[trigger] r@[t1]).index < (#[trigger] r@[t2]).index,
        forall|t: int|
            0 <= t < r@.len() ==> (#[trigger] r@[t]).index < summaries@.len() && sample_matches(
                r@[t],
                summaries@[r@[t].index as int],
            ),
        forall|i: int|
            0 <= i < summaries@.len() && (#[trigger] summaries@[i]).centroid is Some
                ==> exists|t: int| 0 <= t < r@.len() && (#[trigger] r@[t]).index == i,
{
    let mut r: Vec<CentroidSample> = Vec::new();
    let n = summaries.len();
    for i in 0..n
        invariant
            n == summaries@.len(),
            forall|t: int| 0 <= t < r@.len() ==> (#[trigger] r@[t]).index < i,
            forall|t1: int, t2: int|
                0 <= t1 < t2 < r@.len() ==> (#[trigger] r@[t1]).index < (#[trigger] r@[t2]).index,
            forall|t: int|
                0 <= t < r@.len() ==> (#[trigger] r@[t]).index < summaries@.len()
                    && sample_matches(r@[t], summaries@[r@[t].index as int]),
            forall|i2: int|
                0 <= i2 < i && (#[trigger] summaries@[i2]).centroid is Some ==> exists|t: int|
                    0 <= t < r@.len() && (#[trigger] r@[t]).index == i2,
    {
        let ghost prev = r@;
        match &summaries[i].centroid {
            Option::Some(v) => {
                let x: i64 = if v.len() > 0 {
                    v[0]
                } else {
                    0
                };
                let y: i64 = if v.len() > 1 {
                    v[1]
                } else {
                    0
                };
                r.push(CentroidSample { index: i, x, y });
                proof {
                    assert(r@[prev.len() as int].index == i as int);
                    assert forall|i2: int|
                        0 <= i2 < i + 1 && (#[trigger] summaries@[i2]).centroid
                            is Some implies exists|t: int|
                        0 <= t < r@.len() && (#[trigger] r@[t]).index == i2 by {
                        if i2 < i {
                            let t = choose|t: int|
                                0 <= t < prev.len() && (#[trigger] prev[t]).index == i2;
                            assert(r@[t].index == i2);
                        } else {
                            assert(r@[prev.len() as int].index == i2);
                        }
                    }
                }
            },
            Option::None => {},
        }
    }
    r
}

/// The cell contents after placing every point in order: the last
/// point landing on the cell wins.
pub open spec fn cell_at(ps: Seq<GridPoint>, row: int, col: int) -> Option<usize>
    decreases ps.len(),
{
    if ps.len() == 0 {
        Option::None
    } else if ps.last().y == row && ps.last().x == col {
        Option::Some(ps.last().index)
    } else {
        cell_at(ps.drop_last(), row, col)
    }
}

/// Builds the `height` by `width` grid of placed points.  Each cell
/// holds the index of the last point placed on it, if any.
pub fn place_on_grid(points: &Vec<GridPoint>, width: usize, height: usize) -> (grid: Vec<
    Vec<Option<usize>>,
>)
    requires
        forall|t: int|
            0 <= t < points@.len() ==> (#[trigger] points@[t]).x < width && points@[t].y < height,
    ensures
        grid@.len() == height,
        forall|row: int| 0 <= row < height ==> (#[trigger] grid@[row])@.len() == width,
        forall|row: int, col: int|
            0 <= row < height && 0 <= col < width ==> (#[trigger] grid@[row]@[col]) == cell_at(
                points@,
                row,
                col,
            ),
{
    let mut grid: Vec<Vec<Option<usize>>> = Vec::new();
    let n = points.len();
    for row in 0..height
        invariant
            n == points@.len(),
            grid@.len() == row,
            forall|r2: int| 0 <= r2 < row ==> (#[trigger] grid@[r2])@.len() == width,
            forall|r2: int, col: int|
                0 <= r2 < row && 0 <= col < width ==> (#[trigger] grid@[r2]@[col]) == cell_at(
                    points@,
                    r2,
                    col,
                ),
    {
        let mut line: Vec<Option<usize>> = Vec::new();
        for col in 0..width
            invariant
                n == points@.len(),
                line@.len() == col,
                forall|c2: int|
                    0 <= c2 < col ==> (#[trigger] line@[c2]) == cell_at(
                        points@,
                        row as int,
                        c2,
                    ),
        {
            // scan the points backwards: the last hit wins
            let mut t = n;
            let mut cell: Option<usize> = Option::None;
            proof {
                assert(points@.take(n as int) =~= points@);
            }
            loop
                invariant_except_break
                    n == points@.len(),
                    t <= n,
                    cell is None,
                    cell_at(points@, row as int, col as int) == cell_at(
                        points@.take(t as int),
                        row as int,
                        col as int,
                    ),
                ensures
                    cell == cell_at(points@, row as int, col as int),
                decreases t,
            {
                if t == 0 {
                    proof {
                        assert(points@.take(0) =~= Seq::<GridPoint>::empty());
                    }
                    break ;
                }
                proof {
                    assert(points@.take(t as int).drop_last() =~= points@.take(t - 1));
                    assert(points@.take(t as int).last() == points@[t - 1]);
                }
                let p = &points[t - 1];
                if p.y == row && p.x == col {
                    cell = Option::Some(p.index);
                    break ;
                }
                t = t - 1;
            }
            line.push(cell);
        }
        grid.push(line);
    }
    grid
}

} // verus!
