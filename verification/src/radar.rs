//! The radar endpoint's computations: contour thresholds, the local maxima it reports
//! and the summary of the encoded contours.
use vstd::prelude::*;
use crate::grid::RadarGrid;
use crate::maxima::{find_local_maxima, local_maxima_spec, PixelMaximum};

verus! {

/// Contour thresholds (ACRR in 0.01 mm units): 0.2, 0.4, 0.7, 1.0 and 1.5 mm/h.
pub fn contour_thresholds() -> (t: Vec<i32>)
    ensures
        t@ == seq![20i32, 40, 70, 100, 150],
{
    let mut t: Vec<i32> = Vec::new();
    t.push(20);
    t.push(40);
    t.push(70);
    t.push(100);
    t.push(150);
    assert(t@ =~= seq![20i32, 40, 70, 100, 150]);
    t
}

/// Minimum value of a reported local maximum: the first contour level.
pub const MIN_THRESHOLD: i32 = 20;

/// Maximum number of local maxima to report.
pub const MAX_LOCAL_MAXIMA: usize = 5;

/// Window size for local maxima detection (7 pixels = 3.5 km at 500 m resolution).
pub const MAXIMA_WINDOW_SIZE: usize = 7;

/// The maxima of `s` of at least the minimum threshold, moved by `(row_offset, col_offset)`.
pub open spec fn shown_maxima(s: Seq<PixelMaximum>, row_offset: int, col_offset: int) -> Seq<PixelMaximum>
    decreases s.len(),
{
    if s.len() == 0 {
        Seq::empty()
    } else {
        let prev = shown_maxima(s.drop_last(), row_offset, col_offset);
        let m = s.last();
        if m.value >= 20 {
            prev.push(
                PixelMaximum {
                    row: (m.row + row_offset) as usize,
                    col: (m.col + col_offset) as usize,
                    value: m.value,
                },
            )
        } else {
            prev
        }
    }
}

/// The local maxima the radar endpoint reports for a sub-grid whose top-left cell is
/// `(row_offset, col_offset)` of the full grid: at most 5 maxima over a 7-pixel window,
/// of value at least 20, at their positions in the full grid.
pub fn radar_local_maxima(subset: &RadarGrid, row_offset: usize, col_offset: usize) -> (res: Vec<PixelMaximum>)
    requires
        row_offset + subset@.rows <= usize::MAX,
        col_offset + subset@.cols <= usize::MAX,
    ensures
        res@ == shown_maxima(
            local_maxima_spec(subset@, MAX_LOCAL_MAXIMA as nat, MAXIMA_WINDOW_SIZE as nat),
            row_offset as int,
            col_offset as int,
        ),
{
    let (_rows, _cols) = subset.dim();
    let maxima = find_local_maxima(subset, MAX_LOCAL_MAXIMA, MAXIMA_WINDOW_SIZE);
    proof {
        crate::maxima::lemma_local_maxima_sound(
            subset@,
            MAX_LOCAL_MAXIMA as nat,
            MAXIMA_WINDOW_SIZE as nat,
        );
    }
    let mut res: Vec<PixelMaximum> = Vec::new();
    let mut i: usize = 0;
    assert(maxima@.take(0) =~= Seq::<PixelMaximum>::empty());
    while i < maxima.len()
        invariant
            row_offset + subset@.rows <= usize::MAX,
            col_offset + subset@.cols <= usize::MAX,
            i <= maxima@.len(),
            maxima@ == local_maxima_spec(subset@, MAX_LOCAL_MAXIMA as nat, MAXIMA_WINDOW_SIZE as nat),
            forall|k: int|
                0 <= k < maxima@.len() ==> crate::maxima::is_local_max(
                    subset@,
                    #[trigger] maxima@[k].row as int,
                    maxima@[k].col as int,
                    (MAXIMA_WINDOW_SIZE / 2) as int,
                ),
            res@ == shown_maxima(maxima@.take(i as int), row_offset as int, col_offset as int),
        decreases maxima@.len() - i,
    {
        let m = maxima[i];
        proof {
            assert(maxima@.take(i + 1).drop_last() =~= maxima@.take(i as int));
            assert(maxima@.take(i + 1).last() == m);
            assert(crate::maxima::is_local_max(subset@, m.row as int, m.col as int, 3));
        }
        if m.value >= MIN_THRESHOLD {
            res.push(PixelMaximum { row: row_offset + m.row, col: col_offset + m.col, value: m.value });
        }
        i = i + 1;
    }
    assert(maxima@.take(maxima@.len() as int) =~= maxima@);
    res
}

/// One encoded contour ring.
#[derive(Debug, PartialEq, Eq)]
pub struct ContourRing {
    /// Threshold of the contour (0.01 mm units).
    pub threshold: i32,
    /// Number of points of the ring.
    pub points: usize,
    /// The ring encoded as a polyline.
    pub polyline: String,
}

/// A contour in the radar answer.
#[derive(Debug, PartialEq, Eq)]
pub struct ContourData {
    /// Rain rate of the contour (0.01 mm units).
    pub rain_rate: i32,
    /// The encoded polyline.
    pub polyline: String,
    /// Number of points of the polyline.
    pub points: usize,
}

/// The contours of the radar answer with their totals.
#[derive(Debug, PartialEq, Eq)]
pub struct ContourSummary {
    pub contours: Vec<ContourData>,
    pub total_points: usize,
    pub contour_count: usize,
}

/// A ring is drawn when it has at least 4 points and a non-empty encoding.
pub open spec fn drawable(r: ContourRing) -> bool {
    r.points >= 4 && r.polyline@.len() > 0
}

/// The contour shown for a drawable ring.
pub open spec fn as_contour(r: ContourRing) -> ContourData {
    ContourData { rain_rate: r.threshold, polyline: r.polyline, points: r.points }
}

/// The contours shown for `rings`, in order.
pub open spec fn shown_contours(rings: Seq<ContourRing>) -> Seq<ContourData>
    decreases rings.len(),
{
    if rings.len() == 0 {
        Seq::empty()
    } else {
        let prev = shown_contours(rings.drop_last());
        if drawable(rings.last()) {
            prev.push(as_contour(rings.last()))
        } else {
            prev
        }
    }
}

/// Total number of points of the shown contours.
pub open spec fn points_total(cs: Seq<ContourData>) -> int
    decreases cs.len(),
{
    if cs.len() == 0 {
        0
    } else {
        points_total(cs.drop_last()) + cs.last().points
    }
}

/// Keeps the drawable rings (at least 4 points and a non-empty encoding) as contours,
/// in order, and counts their points and number.
pub fn summarize_contours(rings: &Vec<ContourRing>) -> (s: ContourSummary)
    requires
        points_total(shown_contours(rings@)) <= usize::MAX,
    ensures
        s.contours@ == shown_contours(rings@),
        s.total_points == points_total(shown_contours(rings@)),
        s.contour_count == s.contours@.len(),
{
    let mut contours: Vec<ContourData> = Vec::new();
    let mut total_points: usize = 0;
    let mut i: usize = 0;
    let n = rings.len();
    assert(rings@.take(0) =~= Seq::<ContourRing>::empty());
    while i < n
        invariant
            n == rings@.len(),
            i <= n,
            points_total(shown_contours(rings@)) <= usize::MAX,
            contours@ == shown_contours(rings@.take(i as int)),
            total_points == points_total(contours@),
        decreases n - i,
    {
        let threshold = rings[i].threshold;
        let points = rings[i].points;
        proof {
            assert(rings@.take(i + 1).drop_last() =~= rings@.take(i as int));
            assert(rings@.take(i + 1).last() == rings@[i as int]);
            lemma_shown_prefix_total(rings@, (i + 1) as nat);
        }
        if points >= 4 && !rings[i].polyline.as_str().is_empty() {
            let ghost before = contours@;
            proof {
                let t = rings@.take(i + 1);
                assert(drawable(t.last()));
                assert(shown_contours(t) == before.push(as_contour(t.last())));
                assert(before.push(as_contour(t.last())).drop_last() =~= before);
                assert(points_total(shown_contours(t)) == total_points + points);
            }
            total_points = total_points + points;
            let polyline = rings[i].polyline.clone();
            contours.push(ContourData { rain_rate: threshold, polyline, points });
            proof {
                assert(contours@.drop_last() =~= before);
            }
        }
        i = i + 1;
    }
    assert(rings@.take(n as int) =~= rings@);
    let contour_count = contours.len();
    ContourSummary { contours, total_points, contour_count }
}

/// Whether the points of the drawable rings add up within `usize`, as
/// `summarize_contours` requires.
pub fn points_sum_fits(rings: &Vec<ContourRing>) -> (b: bool)
    ensures
        b == (points_total(shown_contours(rings@)) <= usize::MAX),
{
    let mut total: u128 = 0;
    let mut i: usize = 0;
    let n = rings.len();
    assert(rings@.take(0) =~= Seq::<ContourRing>::empty());
    while i < n
        invariant
            n == rings@.len(),
            i <= n,
            total == points_total(shown_contours(rings@.take(i as int))),
            total <= usize::MAX,
        decreases n - i,
    {
        proof {
            let t = rings@.take(i + 1);
            assert(t.drop_last() =~= rings@.take(i as int));
            assert(t.last() == rings@[i as int]);
            let prev = shown_contours(rings@.take(i as int));
            if drawable(t.last()) {
                assert(prev.push(as_contour(t.last())).drop_last() =~= prev);
            }
        }
        if rings[i].points >= 4 && !rings[i].polyline.as_str().is_empty() {
            total = total + rings[i].points as u128;
            if total > usize::MAX as u128 {
                proof {
                    lemma_shown_prefix_total(rings@, (i + 1) as nat);
                }
                return false;
            }
        }
        i = i + 1;
    }
    assert(rings@.take(n as int) =~= rings@);
    true
}

/// The points of the contours shown for a prefix of the rings are at most those of all rings.
proof fn lemma_shown_prefix_total(rings: Seq<ContourRing>, k: nat)
    requires
        k <= rings.len(),
    ensures
        points_total(shown_contours(rings.take(k as int))) <= points_total(shown_contours(rings)),
    decreases rings.len() - k,
{
    if k < rings.len() {
        lemma_shown_prefix_total(rings, k + 1);
        let t = rings.take(k as int + 1);
        assert(t.drop_last() =~= rings.take(k as int));
        let prev = shown_contours(rings.take(k as int));
        if drawable(t.last()) {
            assert(shown_contours(t) == prev.push(as_contour(t.last())));
            assert(prev.push(as_contour(t.last())).drop_last() =~= prev);
        } else {
            assert(shown_contours(t) == prev);
        }
    } else {
        assert(rings.take(k as int) =~= rings);
    }
}

/// Every reported maximum reaches the minimum threshold, and no more maxima are
/// reported than were found.
pub proof fn lemma_shown_maxima(s: Seq<PixelMaximum>, row_offset: int, col_offset: int)
    ensures
        shown_maxima(s, row_offset, col_offset).len() <= s.len(),
        forall|i: int|
            0 <= i < shown_maxima(s, row_offset, col_offset).len() ==> #[trigger] shown_maxima(
                s,
                row_offset,
                col_offset,
            )[i].value >= MIN_THRESHOLD,
    decreases s.len(),
{
    if s.len() > 0 {
        lemma_shown_maxima(s.drop_last(), row_offset, col_offset);
        let prev = shown_maxima(s.drop_last(), row_offset, col_offset);
        let cur = shown_maxima(s, row_offset, col_offset);
        assert forall|i: int| 0 <= i < cur.len() implies #[trigger] cur[i].value >= MIN_THRESHOLD by {
            if i < prev.len() {
                assert(cur[i] == prev[i]);
            }
        }
    }
}

/// Every contour in the answer has at least 4 points and a non-empty encoding, and
/// there are no more contours than rings.
pub proof fn lemma_shown_contours(rings: Seq<ContourRing>)
    ensures
        shown_contours(rings).len() <= rings.len(),
        forall|i: int|
            0 <= i < shown_contours(rings).len() ==> #[trigger] shown_contours(rings)[i].points >= 4
                && shown_contours(rings)[i].polyline@.len() > 0,
    decreases rings.len(),
{
    if rings.len() > 0 {
        lemma_shown_contours(rings.drop_last());
        let prev = shown_contours(rings.drop_last());
        let cur = shown_contours(rings);
        assert forall|i: int| 0 <= i < cur.len() implies #[trigger] cur[i].points >= 4
            && cur[i].polyline@.len() > 0 by {
            if i < prev.len() {
                assert(cur[i] == prev[i]);
            }
        }
    }
}

/// The contours are the drawable rings (at least 4 points and a non-empty polyline),
/// every one of them, in input order, whatever its threshold; so the contour count is
/// the number of drawable rings.
pub proof fn lemma_contours_are_drawable_rings(rings: Seq<ContourRing>)
    ensures
        shown_contours(rings) == rings.filter(|r: ContourRing| r.points >= 4 && r.polyline@.len() > 0).map_values(
            |r: ContourRing| ContourData { rain_rate: r.threshold, polyline: r.polyline, points: r.points },
        ),
        shown_contours(rings).len() == rings.filter(
            |r: ContourRing| r.points >= 4 && r.polyline@.len() > 0,
        ).len(),
    decreases rings.len(),
{
    reveal(Seq::filter);
    let pred = |r: ContourRing| r.points >= 4 && r.polyline@.len() > 0;
    let f = |r: ContourRing| ContourData { rain_rate: r.threshold, polyline: r.polyline, points: r.points };
    if rings.len() > 0 {
        lemma_contours_are_drawable_rings(rings.drop_last());
        let prev = rings.drop_last().filter(pred);
        if pred(rings.last()) {
            assert(rings.filter(pred) == prev.push(rings.last()));
            assert(prev.push(rings.last()).map_values(f) =~= prev.map_values(f).push(f(rings.last())));
        } else {
            assert(rings.filter(pred) == prev);
        }
    } else {
        assert(rings.filter(pred).map_values(f) =~= Seq::<ContourData>::empty());
    }
}

/// The total points are the sum of the points of the drawable rings.
pub proof fn lemma_total_points_of_drawable_rings(rings: Seq<ContourRing>)
    ensures
        points_total(shown_contours(rings)) == rings.filter(
            |r: ContourRing| r.points >= 4 && r.polyline@.len() > 0,
        ).fold_left(0int, |acc: int, r: ContourRing| acc + r.points),
    decreases rings.len(),
{
    reveal(Seq::filter);
    let pred = |r: ContourRing| r.points >= 4 && r.polyline@.len() > 0;
    let add = |acc: int, r: ContourRing| acc + r.points;
    if rings.len() > 0 {
        lemma_total_points_of_drawable_rings(rings.drop_last());
        let prev = rings.drop_last().filter(pred);
        let sc = shown_contours(rings.drop_last());
        if pred(rings.last()) {
            assert(rings.filter(pred) == prev.push(rings.last()));
            assert(prev.push(rings.last()).drop_last() =~= prev);
            let c = as_contour(rings.last());
            assert(sc.push(c).drop_last() =~= sc);
        } else {
            assert(rings.filter(pred) == prev);
        }
    }
}

/// Health answer.
#[derive(Debug, PartialEq, Eq)]
pub struct HealthResponse {
    pub status: String,
}

} // verus!
