//! Local maxima of rain intensity with non-maximum suppression.
use vstd::prelude::*;
use crate::grid::{GridModel, RadarGrid};

verus! {

/// A local maximum: its pixel position and its value (0.01 mm units).
#[derive(Clone, Copy, Debug, PartialEq, Eq)]
pub struct PixelMaximum {
    pub row: usize,
    pub col: usize,
    pub value: i32,
}

/// First index of the window of half-width `half` around `p` (saturating at 0).
pub open spec fn window_start(p: int, half: int) -> int {
    if p >= half {
        p - half
    } else {
        0
    }
}

/// One past the last index of the window of half-width `half` around `p`, capped at `n`.
pub open spec fn window_end(p: int, half: int, n: int) -> int {
    if half >= n - p {
        n
    } else {
        p + half + 1
    }
}

/// `o` holds a value strictly greater than `v`.
pub open spec fn exceeds(o: Option<i32>, v: i32) -> bool {
    match o {
        Some(n) => n > v,
        None => false,
    }
}

/// The cell `(r, c)` holds a positive value that no other cell of its window exceeds.
pub open spec fn is_local_max(g: GridModel, r: int, c: int, half: int) -> bool {
    &&& 0 <= r < g.rows
    &&& 0 <= c < g.cols
    &&& g.cell(r, c) is Some
    &&& g.value_or_zero(r, c) > 0
    &&& forall|rr: int, cc: int|
        window_start(r, half) <= rr < window_end(r, half, g.rows as int) && window_start(c, half)
            <= cc < window_end(c, half, g.cols as int) && !(rr == r && cc == c) ==> !exceeds(
            #[trigger] g.cell(rr, cc),
            g.value_or_zero(r, c),
        )
}

/// The pixel maximum describing cell `(r, c)`.
pub open spec fn pixel_at(g: GridModel, r: int, c: int) -> PixelMaximum {
    PixelMaximum { row: r as usize, col: c as usize, value: g.value_or_zero(r, c) }
}

/// Local maxima among the first `c` cells of row `r`, in column order.
pub open spec fn row_candidates(g: GridModel, half: int, r: int, c: nat) -> Seq<PixelMaximum>
    decreases c,
{
    if c == 0 {
        Seq::empty()
    } else {
        let prev = row_candidates(g, half, r, (c - 1) as nat);
        if is_local_max(g, r, c - 1, half) {
            prev.push(pixel_at(g, r, c - 1))
        } else {
            prev
        }
    }
}

/// Local maxima among the first `r` rows, in row-major order.
pub open spec fn candidates_upto(g: GridModel, half: int, r: nat) -> Seq<PixelMaximum>
    decreases r,
{
    if r == 0 {
        Seq::empty()
    } else {
        candidates_upto(g, half, (r - 1) as nat) + row_candidates(g, half, r - 1, g.cols)
    }
}

/// All local maxima of the grid in row-major order.
pub open spec fn local_max_candidates(g: GridModel, half: int) -> Seq<PixelMaximum> {
    candidates_upto(g, half, g.rows)
}

/// Number of leading elements of `s` whose value is at least `v`.
pub open spec fn insert_pos(s: Seq<PixelMaximum>, v: i32) -> nat
    decreases s.len(),
{
    if s.len() == 0 {
        0
    } else if s[0].value >= v {
        1 + insert_pos(s.drop_first(), v)
    } else {
        0
    }
}

/// Inserts `x` after the leading elements whose value is at least `x.value`.
pub open spec fn insert_desc(s: Seq<PixelMaximum>, x: PixelMaximum) -> Seq<PixelMaximum> {
    s.insert(insert_pos(s, x.value) as int, x)
}

/// Stable sort by value, largest first.
pub open spec fn sort_desc(s: Seq<PixelMaximum>) -> Seq<PixelMaximum>
    decreases s.len(),
{
    if s.len() == 0 {
        s
    } else {
        insert_desc(sort_desc(s.drop_last()), s.last())
    }
}

/// `a` and `b` lie within `half` rows and `half` columns of each other.
pub open spec fn near(a: PixelMaximum, b: PixelMaximum, half: int) -> bool {
    &&& -half <= a.row as int - b.row as int <= half
    &&& -half <= a.col as int - b.col as int <= half
}

/// Some already selected maximum is near `x`.
pub open spec fn suppressed_by(sel: Seq<PixelMaximum>, x: PixelMaximum, half: int) -> bool {
    exists|k: int| 0 <= k < sel.len() && near(#[trigger] sel[k], x, half)
}

/// Greedy non-maximum suppression: scanning `s` in order, keep an element when fewer
/// than `max` are kept and no kept element is near it.
pub open spec fn nms(s: Seq<PixelMaximum>, max: nat, half: int) -> Seq<PixelMaximum>
    decreases s.len(),
{
    if s.len() == 0 {
        Seq::empty()
    } else {
        let prev = nms(s.drop_last(), max, half);
        if prev.len() < max && !suppressed_by(prev, s.last(), half) {
            prev.push(s.last())
        } else {
            prev
        }
    }
}

/// The maxima that `find_local_maxima` returns.
pub open spec fn local_maxima_spec(g: GridModel, max_count: nat, window_size: nat) -> Seq<
    PixelMaximum,
> {
    let half = (window_size / 2) as int;
    nms(sort_desc(local_max_candidates(g, half)), max_count, half)
}

/// Values never increase along `s`.
pub open spec fn sorted_desc(s: Seq<PixelMaximum>) -> bool {
    forall|i: int, j: int| 0 <= i < j < s.len() ==> #[trigger] s[i].value >= #[trigger] s[j].value
}

// ---------------------------------------------------------------------------
// Lemmas about the specification.
proof fn lemma_insert_pos(s: Seq<PixelMaximum>, v: i32)
    ensures
        insert_pos(s, v) <= s.len(),
        forall|i: int| 0 <= i < insert_pos(s, v) ==> #[trigger] s[i].value >= v,
        insert_pos(s, v) < s.len() ==> s[insert_pos(s, v) as int].value < v,
    decreases s.len(),
{
    if s.len() > 0 && s[0].value >= v {
        lemma_insert_pos(s.drop_first(), v);
        assert forall|i: int| 0 <= i < insert_pos(s, v) implies #[trigger] s[i].value >= v by {
            if i > 0 {
                assert(s[i] == s.drop_first()[i - 1]);
            }
        }
    }
}

proof fn lemma_insert_desc(s: Seq<PixelMaximum>, x: PixelMaximum)
    ensures
        insert_desc(s, x).len() == s.len() + 1,
        forall|y: PixelMaximum| #[trigger]
            insert_desc(s, x).contains(y) <==> (s.contains(y) || y == x),
        sorted_desc(s) ==> sorted_desc(insert_desc(s, x)),
{
    lemma_insert_pos(s, x.value);
    let p = insert_pos(s, x.value) as int;
    let t = insert_desc(s, x);
    s.insert_ensures(p, x);
    assert forall|y: PixelMaximum| #[trigger] t.contains(y) <==> (s.contains(y) || y == x) by {
        if t.contains(y) {
            let k = choose|k: int| 0 <= k < t.len() && t[k] == y;
            if k < p {
                assert(s[k] == y);
            } else if k > p {
                assert(s[k - 1] == y);
            }
        }
        if s.contains(y) {
            let k = choose|k: int| 0 <= k < s.len() && s[k] == y;
            if k < p {
                assert(t[k] == y);
            } else {
                assert(t[k + 1] == y);
            }
        }
        if y == x {
            assert(t[p] == y);
        }
    }
    if sorted_desc(s) {
        assert forall|i: int, j: int| 0 <= i < j < t.len() implies #[trigger] t[i].value
            >= #[trigger] t[j].value by {
            if j < p {
                assert(t[i] == s[i] && t[j] == s[j]);
            } else if j == p {
                assert(t[i] == s[i]);
            } else if i < p {
                assert(t[i] == s[i] && t[j] == s[j - 1]);
            } else if i == p {
                assert(t[j] == s[j - 1]);
                assert(s[p].value < x.value);
                assert(s[p].value >= s[j - 1].value || p == j - 1);
            } else {
                assert(t[i] == s[i - 1] && t[j] == s[j - 1]);
            }
        }
    }
}

/// The sort keeps exactly the elements of its input and orders them by value.
pub proof fn lemma_sort_desc(s: Seq<PixelMaximum>)
    ensures
        sort_desc(s).len() == s.len(),
        forall|y: PixelMaximum| #[trigger] sort_desc(s).contains(y) <==> s.contains(y),
        sorted_desc(sort_desc(s)),
    decreases s.len(),
{
    if s.len() > 0 {
        lemma_sort_desc(s.drop_last());
        lemma_insert_desc(sort_desc(s.drop_last()), s.last());
        assert forall|y: PixelMaximum| #[trigger] sort_desc(s).contains(y) <==> s.contains(y) by {
            if s.drop_last().contains(y) {
                let k = choose|k: int| 0 <= k < s.drop_last().len() && s.drop_last()[k] == y;
                assert(s[k] == y);
            }
            if s.contains(y) && y != s.last() {
                let k = choose|k: int| 0 <= k < s.len() && s[k] == y;
                assert(s.drop_last()[k] == y);
            }
            if y == s.last() {
                assert(s[s.len() - 1] == y);
            }
        }
    }
}

proof fn lemma_suppressed_push(sel: Seq<PixelMaximum>, x: PixelMaximum, y: PixelMaximum, half: int)
    ensures
        suppressed_by(sel.push(x), y, half) <==> (suppressed_by(sel, y, half) || near(x, y, half)),
{
    let t = sel.push(x);
    if suppressed_by(t, y, half) {
        let k = choose|k: int| 0 <= k < t.len() && near(#[trigger] t[k], y, half);
        if k < sel.len() {
            assert(sel[k] == t[k]);
        }
    }
    if suppressed_by(sel, y, half) {
        let k = choose|k: int| 0 <= k < sel.len() && near(#[trigger] sel[k], y, half);
        assert(t[k] == sel[k]);
    }
    if near(x, y, half) {
        assert(t[sel.len() as int] == x);
    }
}

/// Facts about greedy suppression: it keeps at most `max` elements, all taken from
/// its input, pairwise apart, in input order when the input is sorted.
pub proof fn lemma_nms(s: Seq<PixelMaximum>, max: nat, half: int)
    ensures
        nms(s, max, half).len() <= max,
        forall|y: PixelMaximum| #[trigger] nms(s, max, half).contains(y) ==> s.contains(y),
        forall|i: int, j: int|
            0 <= i < j < nms(s, max, half).len() ==> !near(
                #[trigger] nms(s, max, half)[i],
                #[trigger] nms(s, max, half)[j],
                half,
            ),
        sorted_desc(s) ==> sorted_desc(nms(s, max, half)),
    decreases s.len(),
{
    if s.len() > 0 {
        let d = s.drop_last();
        let x = s.last();
        lemma_nms(d, max, half);
        let prev = nms(d, max, half);
        let res = nms(s, max, half);
        assert forall|y: PixelMaximum| #[trigger] res.contains(y) implies s.contains(y) by {
            let k = choose|k: int| 0 <= k < res.len() && res[k] == y;
            if k < prev.len() {
                assert(prev[k] == y);
                assert(prev.contains(y));
                let m = choose|m: int| 0 <= m < d.len() && d[m] == y;
                assert(s[m] == y);
            } else {
                assert(s[s.len() - 1] == y);
            }
        }
        if prev.len() < max && !suppressed_by(prev, x, half) {
            assert forall|i: int, j: int| 0 <= i < j < res.len() implies !near(
                #[trigger] res[i],
                #[trigger] res[j],
                half,
            ) by {
                if j == prev.len() {
                    assert(res[i] == prev[i]);
                    if near(res[i], res[j], half) {
                        assert(near(prev[i], x, half));
                    }
                } else {
                    assert(res[i] == prev[i] && res[j] == prev[j]);
                }
            }
            if sorted_desc(s) {
                assert forall|i: int, j: int| 0 <= i < j < res.len() implies #[trigger] res[i].value
                    >= #[trigger] res[j].value by {
                    if j == prev.len() {
                        assert(res[i] == prev[i]);
                        assert(prev.contains(prev[i]));
                        let m = choose|m: int| 0 <= m < d.len() && d[m] == prev[i];
                        assert(s[m] == d[m]);
                        assert(s[s.len() - 1] == x);
                    } else {
                        assert(res[i] == prev[i] && res[j] == prev[j]);
                    }
                }
            }
        }
        if sorted_desc(s) {
            assert(sorted_desc(d)) by {
                assert forall|i: int, j: int| 0 <= i < j < d.len() implies #[trigger] d[i].value
                    >= #[trigger] d[j].value by {
                    assert(d[i] == s[i] && d[j] == s[j]);
                }
            }
        }
    }
}

/// Every element of a sorted input is kept, or is suppressed by a kept element that is
/// near it and at least as large, or the output is already full.
pub proof fn lemma_nms_complete(s: Seq<PixelMaximum>, max: nat, half: int, i: int)
    requires
        sorted_desc(s),
        0 <= i < s.len(),
    ensures
        ({
            let res = nms(s, max, half);
            ||| res.contains(s[i])
            ||| res.len() == max
            ||| exists|k: int|
                0 <= k < res.len() && near(#[trigger] res[k], s[i], half) && res[k].value
                    >= s[i].value
        }),
    decreases s.len(),
{
    let d = s.drop_last();
    let x = s.last();
    let prev = nms(d, max, half);
    let res = nms(s, max, half);
    lemma_nms(d, max, half);
    lemma_nms(s, max, half);
    assert(sorted_desc(d)) by {
        assert forall|a: int, b: int| 0 <= a < b < d.len() implies #[trigger] d[a].value
            >= #[trigger] d[b].value by {
            assert(d[a] == s[a] && d[b] == s[b]);
        }
    }
    if i == s.len() - 1 {
        if prev.len() < max && !suppressed_by(prev, x, half) {
            assert(res[res.len() - 1] == x);
        } else if prev.len() >= max {
        } else {
            let k = choose|k: int| 0 <= k < prev.len() && near(#[trigger] prev[k], x, half);
            assert(prev.contains(prev[k]));
            let m = choose|m: int| 0 <= m < d.len() && d[m] == prev[k];
            assert(s[m] == d[m]);
            assert(res[k] == prev[k]);
        }
    } else {
        lemma_nms_complete(d, max, half, i);
        assert(d[i] == s[i]);
        if prev.contains(s[i]) {
            let k = choose|k: int| 0 <= k < prev.len() && prev[k] == s[i];
            assert(res[k] == prev[k]);
        } else if prev.len() == max {
        } else {
            let k = choose|k: int|
                0 <= k < prev.len() && near(#[trigger] prev[k], d[i], half) && prev[k].value
                    >= d[i].value;
            assert(res[k] == prev[k]);
        }
    }
}

proof fn lemma_row_candidates(g: GridModel, half: int, r: int, c: nat)
    requires
        g.wf(),
        0 <= r < g.rows,
        c <= g.cols,
    ensures
        forall|y: PixelMaximum| #[trigger]
            row_candidates(g, half, r, c).contains(y) ==> y.row == r && y.col < c && is_local_max(
                g,
                r,
                y.col as int,
                half,
            ) && y == pixel_at(g, r, y.col as int),
        forall|cc: int|
            0 <= cc < c && is_local_max(g, r, cc, half) ==> #[trigger] row_candidates(
                g,
                half,
                r,
                c,
            ).contains(pixel_at(g, r, cc)),
    decreases c,
{
    if c > 0 {
        lemma_row_candidates(g, half, r, (c - 1) as nat);
        let prev = row_candidates(g, half, r, (c - 1) as nat);
        let cur = row_candidates(g, half, r, c);
        assert forall|y: PixelMaximum| #[trigger] cur.contains(y) implies y.row == r && y.col < c
            && is_local_max(g, r, y.col as int, half) && y == pixel_at(g, r, y.col as int) by {
            let k = choose|k: int| 0 <= k < cur.len() && cur[k] == y;
            if k < prev.len() {
                assert(prev[k] == y);
                assert(prev.contains(y));
            }
        }
        assert forall|cc: int| 0 <= cc < c && is_local_max(g, r, cc, half) implies #[trigger] cur.contains(
            pixel_at(g, r, cc),
        ) by {
            if cc < c - 1 {
                assert(prev.contains(pixel_at(g, r, cc)));
                let k = choose|k: int| 0 <= k < prev.len() && prev[k] == pixel_at(g, r, cc);
                assert(cur[k] == prev[k]);
            } else {
                assert(cur[cur.len() - 1] == pixel_at(g, r, cc));
            }
        }
    }
}

proof fn lemma_candidates_upto(g: GridModel, half: int, r: nat)
    requires
        g.wf(),
        r <= g.rows,
    ensures
        forall|y: PixelMaximum| #[trigger]
            candidates_upto(g, half, r).contains(y) ==> y.row < r && is_local_max(
                g,
                y.row as int,
                y.col as int,
                half,
            ) && y == pixel_at(g, y.row as int, y.col as int),
        forall|rr: int, cc: int|
            0 <= rr < r && 0 <= cc < g.cols && is_local_max(g, rr, cc, half)
                ==> #[trigger] candidates_upto(g, half, r).contains(pixel_at(g, rr, cc)),
    decreases r,
{
    if r > 0 {
        lemma_candidates_upto(g, half, (r - 1) as nat);
        lemma_row_candidates(g, half, r - 1, g.cols);
        let a = candidates_upto(g, half, (r - 1) as nat);
        let b = row_candidates(g, half, r - 1, g.cols);
        let cur = candidates_upto(g, half, r);
        assert(cur == a + b);
        assert forall|y: PixelMaximum| #[trigger] cur.contains(y) implies y.row < r
            && is_local_max(g, y.row as int, y.col as int, half) && y == pixel_at(
            g,
            y.row as int,
            y.col as int,
        ) by {
            let k = choose|k: int| 0 <= k < cur.len() && cur[k] == y;
            if k < a.len() {
                assert(a[k] == y);
                assert(a.contains(y));
            } else {
                assert(b[k - a.len()] == y);
                assert(b.contains(y));
            }
        }
        assert forall|rr: int, cc: int|
            0 <= rr < r && 0 <= cc < g.cols && is_local_max(
                g,
                rr,
                cc,
                half,
            ) implies #[trigger] cur.contains(pixel_at(g, rr, cc)) by {
            if rr < r - 1 {
                assert(a.contains(pixel_at(g, rr, cc)));
                let k = choose|k: int| 0 <= k < a.len() && a[k] == pixel_at(g, rr, cc);
                assert(cur[k] == a[k]);
            } else {
                assert(b.contains(pixel_at(g, rr, cc)));
                let k = choose|k: int| 0 <= k < b.len() && b[k] == pixel_at(g, rr, cc);
                assert(cur[a.len() + k] == b[k]);
            }
        }
    }
}

// ---------------------------------------------------------------------------
// Laws of `find_local_maxima`.
/// At most `max_count` maxima are returned, largest first, no two of them within half a
/// window of each other, and each is a local maximum of the grid reported with its value.
pub proof fn lemma_local_maxima_sound(g: GridModel, max_count: nat, window_size: nat)
    requires
        g.wf(),
    ensures
        ({
            let res = local_maxima_spec(g, max_count, window_size);
            let half = (window_size / 2) as int;
            &&& res.len() <= max_count
            &&& sorted_desc(res)
            &&& forall|i: int, j: int|
                0 <= i < j < res.len() ==> !near(#[trigger] res[i], #[trigger] res[j], half)
            &&& forall|i: int|
                0 <= i < res.len() ==> is_local_max(
                    g,
                    #[trigger] res[i].row as int,
                    res[i].col as int,
                    half,
                ) && res[i].value == g.value_or_zero(res[i].row as int, res[i].col as int)
        }),
{
    let half = (window_size / 2) as int;
    let cands = local_max_candidates(g, half);
    let sorted = sort_desc(cands);
    let res = nms(sorted, max_count, half);
    lemma_candidates_upto(g, half, g.rows);
    lemma_sort_desc(cands);
    lemma_nms(sorted, max_count, half);
    assert forall|i: int| 0 <= i < res.len() implies is_local_max(
        g,
        #[trigger] res[i].row as int,
        res[i].col as int,
        half,
    ) && res[i].value == g.value_or_zero(res[i].row as int, res[i].col as int) by {
        assert(res.contains(res[i]));
        assert(sorted.contains(res[i]));
        assert(cands.contains(res[i]));
    }
}

/// Every local maximum of the grid is returned, or lies within half a window of a
/// returned maximum at least as large, or `max_count` maxima were returned.
pub proof fn lemma_local_maxima_complete(g: GridModel, max_count: nat, window_size: nat, r: int, c: int)
    requires
        g.wf(),
        is_local_max(g, r, c, (window_size / 2) as int),
    ensures
        ({
            let res = local_maxima_spec(g, max_count, window_size);
            let half = (window_size / 2) as int;
            let p = pixel_at(g, r, c);
            ||| res.contains(p)
            ||| res.len() == max_count
            ||| exists|k: int|
                0 <= k < res.len() && near(#[trigger] res[k], p, half) && res[k].value >= p.value
        }),
{
    let half = (window_size / 2) as int;
    let cands = local_max_candidates(g, half);
    let sorted = sort_desc(cands);
    lemma_candidates_upto(g, half, g.rows);
    lemma_sort_desc(cands);
    let p = pixel_at(g, r, c);
    assert(cands.contains(p));
    assert(sorted.contains(p));
    let i = choose|i: int| 0 <= i < sorted.len() && sorted[i] == p;
    lemma_nms_complete(sorted, max_count, half, i);
}

/// A positive cell that no other cell within `window_size / 2` rows and columns strictly
/// exceeds (cells without data are ignored; equal values do not disqualify it) is
/// reported: it is returned itself, or a returned maximum of at least its value lies
/// within `window_size / 2` rows and columns of it, or `max_count` maxima were returned.
pub proof fn lemma_window_peak_reported(g: GridModel, max_count: nat, window_size: nat, r: int, c: int, v: i32)
    requires
        g.wf(),
        0 <= r < g.rows,
        0 <= c < g.cols,
        g.cells[r * g.cols + c] == Some(v),
        v > 0,
        forall|rr: int, cc: int|
            0 <= rr < g.rows && 0 <= cc < g.cols && r - window_size / 2 <= rr <= r + window_size / 2
                && c - window_size / 2 <= cc <= c + window_size / 2 && !(rr == r && cc == c)
                ==> match #[trigger] g.cells[rr * g.cols + cc] {
                Some(n) => n <= v,
                None => true,
            },
    ensures
        ({
            let res = local_maxima_spec(g, max_count, window_size);
            let p = PixelMaximum { row: r as usize, col: c as usize, value: v };
            ||| res.contains(p)
            ||| res.len() == max_count
            ||| exists|k: int|
                0 <= k < res.len() && #[trigger] res[k].value >= v && -(window_size / 2) <= res[k].row
                    - r <= window_size / 2 && -(window_size / 2) <= res[k].col - c <= window_size / 2
        }),
{
    let half = (window_size / 2) as int;
    assert(is_local_max(g, r, c, half)) by {
        assert forall|rr: int, cc: int|
            window_start(r, half) <= rr < window_end(r, half, g.rows as int) && window_start(c, half)
                <= cc < window_end(c, half, g.cols as int) && !(rr == r && cc == c) implies !exceeds(
            #[trigger] g.cell(rr, cc),
            g.value_or_zero(r, c),
        ) by {
            assert(g.cells[rr * g.cols + cc] == g.cell(rr, cc));
        }
    }
    lemma_local_maxima_complete(g, max_count, window_size, r, c);
    let res = local_maxima_spec(g, max_count, window_size);
    assert(pixel_at(g, r, c) == PixelMaximum { row: r as usize, col: c as usize, value: v });
    if !res.contains(pixel_at(g, r, c)) && res.len() != max_count {
        let k = choose|k: int|
            0 <= k < res.len() && near(#[trigger] res[k], pixel_at(g, r, c), half) && res[k].value
                >= pixel_at(g, r, c).value;
        assert(res[k].value >= v);
    }
}

/// What is returned is sound: at most `max_count` maxima, largest first, each a cell of
/// the grid with positive data equal to its value that no cell within `window_size / 2`
/// rows and columns strictly exceeds, and any two of them more than `window_size / 2`
/// rows or columns apart.
pub proof fn lemma_returned_maxima_are_window_peaks(g: GridModel, max_count: nat, window_size: nat)
    requires
        g.wf(),
    ensures
        ({
            let res = local_maxima_spec(g, max_count, window_size);
            let half = window_size / 2;
            &&& res.len() <= max_count
            &&& forall|i: int, j: int| 0 <= i < j < res.len() ==> #[trigger] res[i].value >= #[trigger] res[j].value
            &&& forall|i: int, j: int|
                0 <= i < j < res.len() ==> (res[i].row - res[j].row > half || res[j].row - res[i].row > half
                    || res[i].col - res[j].col > half || res[j].col - res[i].col > half)
            &&& forall|i: int|
                0 <= i < res.len() ==> #[trigger] res[i].row < g.rows && res[i].col < g.cols && res[i].value > 0
                    && g.cells[res[i].row * g.cols + res[i].col] == Some(res[i].value)
            &&& forall|i: int, rr: int, cc: int|
                0 <= i < res.len() && 0 <= rr < g.rows && 0 <= cc < g.cols && res[i].row - half <= rr
                    <= res[i].row + half && res[i].col - half <= cc <= res[i].col + half
                    ==> match #[trigger] g.cells[rr * g.cols + cc] {
                    Some(n) => n <= #[trigger] res[i].value,
                    None => true,
                }
        }),
{
    let res = local_maxima_spec(g, max_count, window_size);
    let half = (window_size / 2) as int;
    lemma_local_maxima_sound(g, max_count, window_size);
    assert forall|i: int, j: int| 0 <= i < j < res.len() implies (res[i].row - res[j].row > half
        || res[j].row - res[i].row > half || res[i].col - res[j].col > half || res[j].col - res[i].col
        > half) by {
        assert(!near(res[i], res[j], half));
    }
    assert forall|i: int, rr: int, cc: int|
        0 <= i < res.len() && 0 <= rr < g.rows && 0 <= cc < g.cols && res[i].row - half <= rr <= res[i].row
            + half && res[i].col - half <= cc <= res[i].col + half implies match #[trigger] g.cells[rr
        * g.cols + cc] {
        Some(n) => n <= #[trigger] res[i].value,
        None => true,
    } by {
        let r = res[i].row as int;
        let c = res[i].col as int;
        assert(is_local_max(g, r, c, half));
        assert(g.cells[rr * g.cols + cc] == g.cell(rr, cc));
        if !(rr == r && cc == c) {
            assert(!exceeds(g.cell(rr, cc), g.value_or_zero(r, c)));
        }
    }
}

// ---------------------------------------------------------------------------
// Executable code.
/// Whether no cell of the window around `(row, col)` exceeds `v`, the value at `(row, col)`.
fn window_is_max(g: &RadarGrid, row: usize, col: usize, v: i32, half: usize) -> (b: bool)
    requires
        row < g@.rows,
        col < g@.cols,
        g@.cell(row as int, col as int) == Some(v),
        v > 0,
    ensures
        b == is_local_max(g@, row as int, col as int, half as int),
{
    let (rows, cols) = g.dim();
    let rs = if row >= half {
        row - half
    } else {
        0
    };
    let re = if half >= rows - row {
        rows
    } else {
        row + half + 1
    };
    let cs = if col >= half {
        col - half
    } else {
        0
    };
    let ce = if half >= cols - col {
        cols
    } else {
        col + half + 1
    };
    assert(g@.value_or_zero(row as int, col as int) == v);
    let mut r = rs;
    while r < re
        invariant
            rows == g@.rows,
            cols == g@.cols,
            g@.wf(),
            row < rows,
            col < cols,
            rs == window_start(row as int, half as int),
            re == window_end(row as int, half as int, rows as int),
            cs == window_start(col as int, half as int),
            ce == window_end(col as int, half as int, cols as int),
            re <= rows,
            ce <= cols,
            rs <= r <= re,
            g@.value_or_zero(row as int, col as int) == v,
            forall|rr: int, cc: int|
                rs <= rr < r && cs <= cc < ce && !(rr == row && cc == col) ==> !exceeds(
                    #[trigger] g@.cell(rr, cc),
                    v,
                ),
        decreases re - r,
    {
        let mut c = cs;
        while c < ce
            invariant
                rows == g@.rows,
                cols == g@.cols,
                g@.wf(),
                row < rows,
                col < cols,
                rs <= r < re,
                re <= rows,
                ce <= cols,
                cs <= c <= ce,
                rs == window_start(row as int, half as int),
                re == window_end(row as int, half as int, rows as int),
                cs == window_start(col as int, half as int),
                ce == window_end(col as int, half as int, cols as int),
                g@.value_or_zero(row as int, col as int) == v,
                forall|rr: int, cc: int|
                    rs <= rr < r && cs <= cc < ce && !(rr == row && cc == col) ==> !exceeds(
                        #[trigger] g@.cell(rr, cc),
                        v,
                    ),
                forall|cc: int|
                    cs <= cc < c && !(r == row && cc == col) ==> !exceeds(
                        #[trigger] g@.cell(r as int, cc),
                        v,
                    ),
            decreases ce - c,
        {
            if !(r == row && c == col) {
                match g.get(r, c) {
                    Some(n) => {
                        if n > v {
                            assert(exceeds(g@.cell(r as int, c as int), v));
                            return false;
                        }
                    },
                    None => {},
                }
            }
            c = c + 1;
        }
        r = r + 1;
    }
    true
}

/// All local maxima of the grid in row-major order.
fn collect_candidates(g: &RadarGrid, half: usize) -> (cands: Vec<PixelMaximum>)
    ensures
        cands@ == local_max_candidates(g@, half as int),
{
    let (rows, cols) = g.dim();
    let mut cands: Vec<PixelMaximum> = Vec::new();
    let mut row: usize = 0;
    while row < rows
        invariant
            rows == g@.rows,
            cols == g@.cols,
            g@.wf(),
            row <= rows,
            cands@ == candidates_upto(g@, half as int, row as nat),
        decreases rows - row,
    {
        let mut col: usize = 0;
        while col < cols
            invariant
                rows == g@.rows,
                cols == g@.cols,
                g@.wf(),
                row < rows,
                col <= cols,
                cands@ == candidates_upto(g@, half as int, row as nat) + row_candidates(
                    g@,
                    half as int,
                    row as int,
                    col as nat,
                ),
            decreases cols - col,
        {
            let ghost before = cands@;
            match g.get(row, col) {
                Some(v) => {
                    if v > 0 && window_is_max(g, row, col, v, half) {
                        cands.push(PixelMaximum { row, col, value: v });
                    }
                },
                None => {},
            }
            proof {
                let a = candidates_upto(g@, half as int, row as nat);
                let b = row_candidates(g@, half as int, row as int, col as nat);
                if is_local_max(g@, row as int, col as int, half as int) {
                    assert(cands@ == before.push(pixel_at(g@, row as int, col as int)));
                    assert((a + b).push(pixel_at(g@, row as int, col as int)) =~= a + b.push(
                        pixel_at(g@, row as int, col as int),
                    ));
                }
            }
            col = col + 1;
        }
        row = row + 1;
    }
    cands
}

/// Position at which an element of value `v` goes into a list sorted by value, largest
/// first, after the elements of equal value.
fn insert_position(s: &Vec<PixelMaximum>, v: i32) -> (p: usize)
    ensures
        p == insert_pos(s@, v),
{
    let mut p: usize = 0;
    assert(s@.skip(0) =~= s@);
    while p < s.len() && s[p].value >= v
        invariant
            p <= s@.len(),
            insert_pos(s@, v) == p + insert_pos(s@.skip(p as int), v),
        decreases s@.len() - p,
    {
        assert(s@.skip(p as int).drop_first() =~= s@.skip(p + 1));
        p = p + 1;
    }
    p
}

/// Stable sort by value, largest first.
fn sort_by_value_desc(cands: &Vec<PixelMaximum>) -> (sorted: Vec<PixelMaximum>)
    ensures
        sorted@ == sort_desc(cands@),
{
    let mut sorted: Vec<PixelMaximum> = Vec::new();
    let mut i: usize = 0;
    assert(cands@.take(0) =~= Seq::<PixelMaximum>::empty());
    while i < cands.len()
        invariant
            i <= cands@.len(),
            sorted@ == sort_desc(cands@.take(i as int)),
        decreases cands@.len() - i,
    {
        let x = cands[i];
        proof {
            lemma_insert_pos(sorted@, x.value);
        }
        let p = insert_position(&sorted, x.value);
        sorted.insert(p, x);
        proof {
            assert(cands@.take(i + 1).drop_last() =~= cands@.take(i as int));
            assert(cands@.take(i + 1).last() == x);
        }
        i = i + 1;
    }
    assert(cands@.take(cands@.len() as int) =~= cands@);
    sorted
}

/// Greedy non-maximum suppression over candidates sorted largest first.
fn suppress_non_maxima(sorted: &Vec<PixelMaximum>, max_count: usize, half: usize) -> (res: Vec<
    PixelMaximum,
>)
    ensures
        res@ == nms(sorted@, max_count as nat, half as int),
{
    let n = sorted.len();
    let mut result: Vec<PixelMaximum> = Vec::new();
    let mut suppressed: Vec<bool> = vec![false; n];
    let mut i: usize = 0;
    assert(sorted@.take(0) =~= Seq::<PixelMaximum>::empty());
    while i < n
        invariant
            n == sorted@.len(),
            i <= n,
            suppressed@.len() == n,
            result@ == nms(sorted@.take(i as int), max_count as nat, half as int),
            forall|j: int|
                i <= j < n ==> (#[trigger] suppressed@[j] <==> suppressed_by(
                    result@,
                    sorted@[j],
                    half as int,
                )),
        decreases n - i,
    {
        proof {
            assert(sorted@.take(i + 1).drop_last() =~= sorted@.take(i as int));
            assert(sorted@.take(i + 1).last() == sorted@[i as int]);
        }
        if suppressed[i] || result.len() >= max_count {
            i = i + 1;
            continue;
        }
        let x = sorted[i];
        let ghost old_result = result@;
        result.push(x);
        let mut j: usize = i + 1;
        while j < n
            invariant
                n == sorted@.len(),
                i < j <= n,
                suppressed@.len() == n,
                result@ == old_result.push(x),
                forall|k: int|
                    i + 1 <= k < j ==> (#[trigger] suppressed@[k] <==> suppressed_by(
                        result@,
                        sorted@[k],
                        half as int,
                    )),
                forall|k: int|
                    j <= k < n ==> (#[trigger] suppressed@[k] <==> suppressed_by(
                        old_result,
                        sorted@[k],
                        half as int,
                    )),
            decreases n - j,
        {
            let y = sorted[j];
            proof {
                lemma_suppressed_push(old_result, x, y, half as int);
            }
            if !suppressed[j] {
                let row_diff = if x.row >= y.row {
                    x.row - y.row
                } else {
                    y.row - x.row
                };
                let col_diff = if x.col >= y.col {
                    x.col - y.col
                } else {
                    y.col - x.col
                };
                if row_diff <= half && col_diff <= half {
                    suppressed.set(j, true);
                }
            }
            j = j + 1;
        }
        i = i + 1;
    }
    assert(sorted@.take(n as int) =~= sorted@);
    result
}

/// Local maxima of `data` under non-maximum suppression: every positive cell that no
/// other cell of its `window_size` window exceeds is a candidate; candidates are taken
/// largest first and each one kept suppresses the candidates within `window_size / 2`
/// rows and columns of it. At most `max_count` maxima are returned, largest first.
pub fn find_local_maxima(data: &RadarGrid, max_count: usize, window_size: usize) -> (res: Vec<
    PixelMaximum,
>)
    ensures
        res@ == local_maxima_spec(data@, max_count as nat, window_size as nat),
{
    let half = window_size / 2;
    let cands = collect_candidates(data, half);
    let sorted = sort_by_value_desc(&cands);
    suppress_non_maxima(&sorted, max_count, half)
}

} // verus!
