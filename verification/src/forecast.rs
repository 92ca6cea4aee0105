//! Rain forecast around a location: rain at the location, the peak intensity of each
//! sector around it, the nearest rain edge and the human-readable status.
use vstd::prelude::*;
use crate::grid::{GridModel, RadarGrid};
use crate::text::{decimal, push_decimal};

verus! {

/// Minimum rain threshold: 0.2 mm/h, i.e. 20 in 0.01 mm units.
pub const RAIN_THRESHOLD: i32 = 20;

/// Assumed speed of the weather, in km/h, for the time estimate.
pub const DEFAULT_WEATHER_SPEED_KMH: u32 = 30;

/// Distance between two samples along a ray, in metres.
pub const EDGE_STEP_M: u32 = 500;

/// Rain at one location.
#[derive(Clone, Copy, Debug, PartialEq, Eq)]
pub struct RainAtLocation {
    /// Rain intensity at the location in 0.01 mm units (0 without data).
    pub rain_rate: i32,
    /// The intensity reaches the rain threshold.
    pub is_raining: bool,
}

/// The pixel `(row, col)` lies inside the grid.
pub open spec fn in_grid(g: GridModel, row: int, col: int) -> bool {
    0 <= row < g.rows && 0 <= col < g.cols
}

/// It rains at a grid cell: it has data of at least the rain threshold.
pub open spec fn raining_cell(o: Option<i32>) -> bool {
    match o {
        Some(v) => v >= 20,
        None => false,
    }
}

/// Rain at pixel `(row, col)`; outside the grid there is no rain.
pub open spec fn rain_at(g: GridModel, row: int, col: int) -> RainAtLocation {
    if in_grid(g, row, col) {
        RainAtLocation {
            rain_rate: g.value_or_zero(row, col),
            is_raining: raining_cell(g.cell(row, col)),
        }
    } else {
        RainAtLocation { rain_rate: 0, is_raining: false }
    }
}

/// Rain at pixel `(row, col)` of the grid; outside the grid there is no rain.
pub fn rain_at_pixel(data: &RadarGrid, row: i64, col: i64) -> (r: RainAtLocation)
    ensures
        r == rain_at(data@, row as int, col as int),
{
    let (rows, cols) = data.dim();
    if row < 0 || row as i128 >= rows as i128 || col < 0 || col as i128 >= cols as i128 {
        return RainAtLocation { rain_rate: 0, is_raining: false };
    }
    let value = data.get(row as usize, col as usize);
    match value {
        Some(v) => RainAtLocation { rain_rate: v, is_raining: v >= RAIN_THRESHOLD },
        None => RainAtLocation { rain_rate: 0, is_raining: false },
    }
}

/// The value sampled at `p`: the cell's value when `p` is inside the grid and has data.
pub open spec fn sample_value(g: GridModel, p: (i64, i64)) -> Option<i32> {
    if in_grid(g, p.0 as int, p.1 as int) {
        g.cell(p.0 as int, p.1 as int)
    } else {
        None
    }
}

/// The largest value sampled at the pixels `s`, at least 0.
pub open spec fn sector_peak_spec(g: GridModel, s: Seq<(i64, i64)>) -> i32
    decreases s.len(),
{
    if s.len() == 0 {
        0
    } else {
        let p = sector_peak_spec(g, s.drop_last());
        match sample_value(g, s.last()) {
            Some(v) => if v > p {
                v
            } else {
                p
            },
            None => p,
        }
    }
}

/// The peak of a sector is at least 0 and at least every value sampled in it, and is
/// either 0 or one of those values.
pub proof fn lemma_sector_peak(g: GridModel, s: Seq<(i64, i64)>)
    ensures
        sector_peak_spec(g, s) >= 0,
        forall|i: int|
            0 <= i < s.len() ==> (#[trigger] sample_value(g, s[i]) matches Some(v) ==> v <= sector_peak_spec(g, s)),
        sector_peak_spec(g, s) == 0 || exists|i: int|
            0 <= i < s.len() && #[trigger] sample_value(g, s[i]) == Some(sector_peak_spec(g, s)),
    decreases s.len(),
{
    if s.len() > 0 {
        let d = s.drop_last();
        lemma_sector_peak(g, d);
        assert forall|i: int| 0 <= i < s.len() implies (#[trigger] sample_value(g, s[i]) matches Some(v)
            ==> v <= sector_peak_spec(g, s)) by {
            if i < s.len() - 1 {
                assert(s[i] == d[i]);
            }
        }
        let p = sector_peak_spec(g, d);
        if sector_peak_spec(g, s) != 0 {
            if sector_peak_spec(g, s) == p {
                let i = choose|i: int| 0 <= i < d.len() && #[trigger] sample_value(g, d[i]) == Some(p);
                assert(s[i] == d[i]);
            } else {
                assert(sample_value(g, s[s.len() - 1]) == Some(sector_peak_spec(g, s)));
            }
        }
    }
}

/// The largest value found at the sample pixels of one sector (0 when none has data).
pub fn sector_peak(data: &RadarGrid, samples: &Vec<(i64, i64)>) -> (peak: i32)
    ensures
        peak == sector_peak_spec(data@, samples@),
{
    let (rows, cols) = data.dim();
    let mut max_value: i32 = 0;
    let mut i: usize = 0;
    assert(samples@.take(0) =~= Seq::<(i64, i64)>::empty());
    while i < samples.len()
        invariant
            rows == data@.rows,
            cols == data@.cols,
            i <= samples@.len(),
            max_value == sector_peak_spec(data@, samples@.take(i as int)),
        decreases samples@.len() - i,
    {
        let (row, col) = samples[i];
        proof {
            assert(samples@.take(i + 1).drop_last() =~= samples@.take(i as int));
            assert(samples@.take(i + 1).last() == samples@[i as int]);
        }
        if row >= 0 && (row as i128) < rows as i128 && col >= 0 && (col as i128) < cols as i128 {
            match data.get(row as usize, col as usize) {
                Some(v) => {
                    if v > max_value {
                        max_value = v;
                    }
                },
                None => {},
            }
        }
        i = i + 1;
    }
    assert(samples@.take(samples@.len() as int) =~= samples@);
    max_value
}

/// The peak of every sector, in order.
pub fn sector_peaks(data: &RadarGrid, sectors: &Vec<Vec<(i64, i64)>>) -> (peaks: Vec<i32>)
    ensures
        peaks@.len() == sectors@.len(),
        forall|i: int| 0 <= i < sectors@.len() ==> #[trigger] peaks@[i] == sector_peak_spec(data@, sectors@[i]@),
{
    let mut peaks: Vec<i32> = Vec::new();
    let mut i: usize = 0;
    while i < sectors.len()
        invariant
            i <= sectors@.len(),
            peaks@.len() == i,
            forall|k: int| 0 <= k < i ==> #[trigger] peaks@[k] == sector_peak_spec(data@, sectors@[k]@),
        decreases sectors@.len() - i,
    {
        let p = sector_peak(data, &sectors[i]);
        peaks.push(p);
        i = i + 1;
    }
    peaks
}

/// Index of the first sample of `ray` where the rain state differs from `raining`;
/// `None` when the ray leaves the grid first or has no such sample.
pub open spec fn ray_transition(g: GridModel, ray: Seq<(i64, i64)>, raining: bool) -> Option<nat>
    decreases ray.len(),
{
    if ray.len() == 0 {
        None
    } else if !in_grid(g, ray[0].0 as int, ray[0].1 as int) {
        None
    } else if raining_cell(g.cell(ray[0].0 as int, ray[0].1 as int)) != raining {
        Some(0)
    } else {
        match ray_transition(g, ray.drop_first(), raining) {
            Some(k) => Some(k + 1),
            None => None,
        }
    }
}

/// The smaller of two optional indices.
pub open spec fn min_option(a: Option<nat>, b: Option<nat>) -> Option<nat> {
    match (a, b) {
        (Some(x), Some(y)) => Some(if y < x { y } else { x }),
        (Some(x), None) => Some(x),
        (None, y) => y,
    }
}

/// The nearest transition over all rays.
pub open spec fn nearest_transition(g: GridModel, rays: Seq<Seq<(i64, i64)>>, raining: bool) -> Option<nat>
    decreases rays.len(),
{
    if rays.len() == 0 {
        None
    } else {
        min_option(
            nearest_transition(g, rays.drop_last(), raining),
            ray_transition(g, rays.last(), raining),
        )
    }
}

/// Distance in metres of the sample with index `k` on a ray (samples every 500 m).
pub open spec fn sample_distance_m(k: nat) -> nat {
    ((k + 1) * 500) as nat
}

/// Minutes for the weather to travel `d` metres at 30 km/h, rounded to the nearest minute.
pub open spec fn travel_minutes(d: nat) -> nat {
    ((d * 60 + 15_000) / 30_000) as nat
}

/// `m` saturated to the `i32` range.
pub open spec fn saturate_i32(m: nat) -> i32 {
    if m > i32::MAX {
        i32::MAX
    } else {
        m as i32
    }
}

/// The distance to the nearest rain edge in metres and the signed minutes until the
/// rain state changes: positive when rain is coming, negative when it is ending.
pub open spec fn rain_edge(g: GridModel, rays: Seq<Seq<(i64, i64)>>, raining: bool) -> (Option<u128>, Option<i32>) {
    match nearest_transition(g, rays, raining) {
        Some(k) => {
            let d = sample_distance_m(k);
            let m = saturate_i32(travel_minutes(d));
            (Some(d as u128), Some(if raining { (-m) as i32 } else { m }))
        },
        None => (None, None),
    }
}

/// The transition found on a ray is its first sample whose rain state differs from
/// `raining`: every earlier sample lies inside the grid with the same state, and the
/// sample itself lies inside the grid.
pub proof fn lemma_ray_transition_first(g: GridModel, ray: Seq<(i64, i64)>, raining: bool)
    ensures
        ray_transition(g, ray, raining) matches Some(k) ==> {
            &&& k < ray.len()
            &&& in_grid(g, ray[k as int].0 as int, ray[k as int].1 as int)
            &&& raining_cell(g.cell(ray[k as int].0 as int, ray[k as int].1 as int)) != raining
            &&& forall|j: int|
                0 <= j < k ==> in_grid(g, #[trigger] ray[j].0 as int, ray[j].1 as int)
                    && raining_cell(g.cell(ray[j].0 as int, ray[j].1 as int)) == raining
        },
    decreases ray.len(),
{
    if ray.len() > 0 && in_grid(g, ray[0].0 as int, ray[0].1 as int) && raining_cell(
        g.cell(ray[0].0 as int, ray[0].1 as int),
    ) == raining {
        lemma_ray_transition_first(g, ray.drop_first(), raining);
        if let Some(k) = ray_transition(g, ray, raining) {
            assert forall|j: int| 0 <= j < k implies in_grid(g, #[trigger] ray[j].0 as int, ray[j].1 as int)
                && raining_cell(g.cell(ray[j].0 as int, ray[j].1 as int)) == raining by {
                if j > 0 {
                    assert(ray[j] == ray.drop_first()[j - 1]);
                }
            }
            assert(ray[k as int] == ray.drop_first()[k - 1]);
        }
    }
}

/// A ray is walked until it leaves the grid or its rain state differs from the current
/// one, missing data counting as dry: when every sample before index `k` lies in the
/// grid with state `raining` and sample `k` lies in the grid with the other state, the
/// ray's transition is at `k`.
pub proof fn lemma_ray_walk(g: GridModel, ray: Seq<(i64, i64)>, raining: bool, k: int)
    requires
        0 <= k < ray.len(),
        forall|j: int|
            0 <= j < k ==> 0 <= #[trigger] ray[j].0 < g.rows && 0 <= ray[j].1 < g.cols && (match g.cells[ray[j].0
                * g.cols + ray[j].1] {
                Some(v) => v >= 20,
                None => false,
            }) == raining,
        0 <= ray[k].0 < g.rows && 0 <= ray[k].1 < g.cols,
        (match g.cells[ray[k].0 * g.cols + ray[k].1] {
            Some(v) => v >= 20,
            None => false,
        }) != raining,
    ensures
        ray_transition(g, ray, raining) == Some(k as nat),
    decreases k,
{
    if k > 0 {
        let d = ray.drop_first();
        assert forall|j: int| 0 <= j < k - 1 implies 0 <= #[trigger] d[j].0 < g.rows && 0 <= d[j].1 < g.cols
            && (match g.cells[d[j].0 * g.cols + d[j].1] {
            Some(v) => v >= 20,
            None => false,
        }) == raining by {
            assert(d[j] == ray[j + 1]);
        }
        assert(d[k - 1] == ray[k]);
        lemma_ray_walk(g, d, raining, k - 1);
        assert(ray[0] == ray[0]);
    }
}

/// When some ray meets the other rain state at its sample `k`, after samples in the grid
/// with the current state (missing data counting as dry), a rain edge is reported and it
/// is at most `(k + 1) * 500` metres away.
pub proof fn lemma_edge_not_beyond_transition(
    g: GridModel,
    rays: Seq<Seq<(i64, i64)>>,
    raining: bool,
    i: int,
    k: int,
)
    requires
        0 <= i < rays.len(),
        0 <= k < rays[i].len(),
        forall|j: int| 0 <= j < rays.len() ==> #[trigger] rays[j].len() <= usize::MAX,
        forall|j: int|
            0 <= j < k ==> 0 <= #[trigger] rays[i][j].0 < g.rows && 0 <= rays[i][j].1 < g.cols && (
            match g.cells[rays[i][j].0 * g.cols + rays[i][j].1] {
                Some(v) => v >= 20,
                None => false,
            }) == raining,
        0 <= rays[i][k].0 < g.rows && 0 <= rays[i][k].1 < g.cols,
        (match g.cells[rays[i][k].0 * g.cols + rays[i][k].1] {
            Some(v) => v >= 20,
            None => false,
        }) != raining,
    ensures
        rain_edge(g, rays, raining).0 matches Some(d) && d <= (k + 1) * 500,
        rain_edge(g, rays, raining).1 is Some,
{
    lemma_ray_walk(g, rays[i], raining, k);
    lemma_nearest_transition(g, rays, raining);
    assert(ray_transition(g, rays[i], raining) matches Some(t) ==> nearest_transition(g, rays, raining)
        matches Some(n) && n <= t);
    let m = nearest_transition(g, rays, raining)->0;
    assert(m <= k);
    let j = choose|j: int| 0 <= j < rays.len() && #[trigger] ray_transition(g, rays[j], raining) == Some(m);
    lemma_ray_transition_first(g, rays[j], raining);
    assert(sample_distance_m(m) <= (k + 1) * 500);
}

/// Conversely, a transition at `k` means that every sample before `k` lies in the grid
/// with state `raining`, and sample `k` lies in the grid with the other state (missing
/// data counting as dry).
pub proof fn lemma_ray_transition_meaning(g: GridModel, ray: Seq<(i64, i64)>, raining: bool)
    ensures
        ray_transition(g, ray, raining) matches Some(k) ==> {
            &&& k < ray.len()
            &&& 0 <= ray[k as int].0 < g.rows && 0 <= ray[k as int].1 < g.cols
            &&& (match g.cells[ray[k as int].0 * g.cols + ray[k as int].1] {
                Some(v) => v >= 20,
                None => false,
            }) != raining
            &&& forall|j: int|
                0 <= j < k ==> 0 <= #[trigger] ray[j].0 < g.rows && 0 <= ray[j].1 < g.cols && (match g.cells[ray[j].0
                    * g.cols + ray[j].1] {
                    Some(v) => v >= 20,
                    None => false,
                }) == raining
        },
{
    lemma_ray_transition_first(g, ray, raining);
}

/// The nearest transition is the smallest transition index over all rays, and is
/// found on one of them.
pub proof fn lemma_nearest_transition(g: GridModel, rays: Seq<Seq<(i64, i64)>>, raining: bool)
    ensures
        forall|j: int|
            0 <= j < rays.len() ==> (#[trigger] ray_transition(g, rays[j], raining) matches Some(t)
                ==> nearest_transition(g, rays, raining) matches Some(k) && k <= t),
        nearest_transition(g, rays, raining) matches Some(k) ==> exists|j: int|
            0 <= j < rays.len() && #[trigger] ray_transition(g, rays[j], raining) == Some(k),
    decreases rays.len(),
{
    if rays.len() > 0 {
        let d = rays.drop_last();
        lemma_nearest_transition(g, d, raining);
        assert forall|j: int|
            0 <= j < rays.len() implies (#[trigger] ray_transition(g, rays[j], raining) matches Some(t)
            ==> nearest_transition(g, rays, raining) matches Some(k) && k <= t) by {
            if j < rays.len() - 1 {
                assert(rays[j] == d[j]);
            }
        }
        if let Some(k) = nearest_transition(g, rays, raining) {
            if ray_transition(g, rays.last(), raining) == Some(k) {
                assert(ray_transition(g, rays[rays.len() - 1], raining) == Some(k));
            } else {
                let j = choose|j: int| 0 <= j < d.len() && #[trigger] ray_transition(g, d[j], raining) == Some(k);
                assert(rays[j] == d[j]);
            }
        }
    }
}

/// The edge distance and the time estimate come together; the time is positive when
/// rain is coming and negative when rain is ending; the distance is a positive multiple
/// of 500 m and the time is one minute per 500 m (the weather moving at 30 km/h).
pub proof fn lemma_rain_edge(g: GridModel, rays: Seq<Seq<(i64, i64)>>, raining: bool)
    requires
        forall|j: int| 0 <= j < rays.len() ==> #[trigger] rays[j].len() <= usize::MAX,
    ensures
        ({
            let (d, m) = rain_edge(g, rays, raining);
            &&& (d is Some <==> m is Some)
            &&& (d is Some <==> nearest_transition(g, rays, raining) is Some)
            &&& m matches Some(x) ==> (raining ==> x < 0) && (!raining ==> x > 0)
            &&& d matches Some(dd) ==> dd > 0 && dd % 500 == 0 && (dd / 500 <= i32::MAX ==> m
                == Some((if raining { -(dd / 500) } else { (dd / 500) as int }) as i32))
        }),
{
    lemma_nearest_transition(g, rays, raining);
    if let Some(k) = nearest_transition(g, rays, raining) {
        let j = choose|j: int| 0 <= j < rays.len() && #[trigger] ray_transition(g, rays[j], raining) == Some(k);
        lemma_ray_transition_first(g, rays[j], raining);
        assert(k < usize::MAX);
        let d = sample_distance_m(k);
        assert(d == (k + 1) * 500);
        assert(travel_minutes(d) == k + 1) by {
            assert(((k + 1) * 500 * 60 + 15_000) / 30_000 == k + 1) by (nonlinear_arith)
                requires
                    k >= 0,
            ;
        }
        assert(d / 500 == k + 1) by (nonlinear_arith)
            requires
                d == (k + 1) * 500,
        ;
    }
}

/// Index of the first rain transition along one ray.
fn ray_transition_exec(data: &RadarGrid, ray: &Vec<(i64, i64)>, raining: bool) -> (t: Option<usize>)
    ensures
        match ray_transition(data@, ray@, raining) {
            Some(k) => k < ray@.len() && k < usize::MAX && t == Some(k as usize),
            None => t is None,
        },
{
    let (rows, cols) = data.dim();
    let mut k: usize = 0;
    assert(ray@.skip(0) =~= ray@);
    while k < ray.len()
        invariant
            rows == data@.rows,
            cols == data@.cols,
            k <= ray@.len(),
            ray_transition(data@, ray@, raining) == match ray_transition(data@, ray@.skip(k as int), raining) {
                Some(j) => Some((j + k) as nat),
                None => None::<nat>,
            },
        decreases ray@.len() - k,
    {
        let (row, col) = ray[k];
        proof {
            let rest = ray@.skip(k as int);
            assert(rest[0] == ray@[k as int]);
            assert(rest.drop_first() =~= ray@.skip(k + 1));
        }
        if !(row >= 0 && (row as i128) < rows as i128 && col >= 0 && (col as i128) < cols as i128) {
            return None;
        }
        let is_raining = match data.get(row as usize, col as usize) {
            Some(v) => v >= RAIN_THRESHOLD,
            None => false,
        };
        if is_raining != raining {
            return Some(k);
        }
        k = k + 1;
    }
    None
}

/// Walks each ray outward from the location (one sample every 500 m) until the rain
/// state differs from `currently_raining` or the ray leaves the grid, and reports the
/// nearest such edge: its distance in metres and the signed minutes for the weather to
/// reach it at 30 km/h (positive when rain is coming, negative when rain is ending).
pub fn find_rain_edge(data: &RadarGrid, rays: &Vec<Vec<(i64, i64)>>, currently_raining: bool) -> (res: (Option<u128>, Option<i32>))
    ensures
        res == rain_edge(data@, rays@.map_values(|r: Vec<(i64, i64)>| r@), currently_raining),
{
    let ghost rs = rays@.map_values(|r: Vec<(i64, i64)>| r@);
    let mut best: Option<usize> = None;
    let mut i: usize = 0;
    assert(rs.take(0) =~= Seq::<Seq<(i64, i64)>>::empty());
    while i < rays.len()
        invariant
            i <= rays@.len(),
            rs == rays@.map_values(|r: Vec<(i64, i64)>| r@),
            match nearest_transition(data@, rs.take(i as int), currently_raining) {
                Some(k) => k <= usize::MAX && best == Some(k as usize),
                None => best is None,
            },
        decreases rays@.len() - i,
    {
        let t = ray_transition_exec(data, &rays[i], currently_raining);
        proof {
            assert(rs.take(i + 1).drop_last() =~= rs.take(i as int));
            assert(rs[i as int] == rays@[i as int]@);
            assert(rs.take(i + 1).last() == rays@[i as int]@);
        }
        best = match (best, t) {
            (Some(b), Some(x)) => Some(if x < b { x } else { b }),
            (Some(b), None) => Some(b),
            (None, x) => x,
        };
        proof {
            let prev = nearest_transition(data@, rs.take(i as int), currently_raining);
            let cur = ray_transition(data@, rays@[i as int]@, currently_raining);
            assert(nearest_transition(data@, rs.take(i + 1), currently_raining) == min_option(prev, cur));
        }
        i = i + 1;
    }
    assert(rs.take(rays@.len() as int) =~= rs);
    match best {
        Some(k) => {
            assert(k as u128 + 1 <= 0x1_0000_0000_0000_0000);
            let d: u128 = (k as u128 + 1) * EDGE_STEP_M as u128;
            let minutes: u128 = (d * 60 + 15_000) / 30_000;
            let m: i32 = if minutes > i32::MAX as u128 {
                i32::MAX
            } else {
                minutes as i32
            };
            let signed = if currently_raining {
                -m
            } else {
                m
            };
            (Some(d), Some(signed))
        },
        None => (None, None),
    }
}

/// Rain forecast around a location.
#[derive(Debug, PartialEq, Eq)]
pub struct RainForecastData {
    /// Rain intensity at the location (0.01 mm units).
    pub current_rain_rate: i32,
    /// Whether it rains at the location.
    pub is_raining: bool,
    /// Peak intensity of each sector around the location (0.01 mm units).
    pub sectors: Vec<i32>,
    /// Minutes until the rain state changes (positive: rain arriving, negative: ending).
    pub minutes_to_change: Option<i32>,
    /// Distance to the nearest rain edge in metres.
    pub distance_to_edge_m: Option<u128>,
}

/// Assembles the forecast of the location at pixel `current` from the sample pixels
/// of each sector and of each ray leaving the location.
pub fn forecast_from_samples(
    data: &RadarGrid,
    current: (i64, i64),
    sectors: &Vec<Vec<(i64, i64)>>,
    rays: &Vec<Vec<(i64, i64)>>,
) -> (f: RainForecastData)
    ensures
        f.current_rain_rate == rain_at(data@, current.0 as int, current.1 as int).rain_rate,
        f.is_raining == rain_at(data@, current.0 as int, current.1 as int).is_raining,
        f.sectors@.len() == sectors@.len(),
        forall|i: int| 0 <= i < sectors@.len() ==> #[trigger] f.sectors@[i] == sector_peak_spec(data@, sectors@[i]@),
        (f.distance_to_edge_m, f.minutes_to_change) == rain_edge(
            data@,
            rays@.map_values(|r: Vec<(i64, i64)>| r@),
            rain_at(data@, current.0 as int, current.1 as int).is_raining,
        ),
{
    let here = rain_at_pixel(data, current.0, current.1);
    let peaks = sector_peaks(data, sectors);
    let (distance, minutes) = find_rain_edge(data, rays, here.is_raining);
    RainForecastData {
        current_rain_rate: here.rain_rate,
        is_raining: here.is_raining,
        sectors: peaks,
        minutes_to_change: minutes,
        distance_to_edge_m: distance,
    }
}

/// `prefix` followed by the decimal `n` and " min".
pub open spec fn with_minutes(prefix: Seq<char>, n: nat) -> Seq<char> {
    prefix + decimal(n) + " min"@
}

/// The status shown to the rider. While it rains: the end of the rain when a change
/// is ahead (imminent within 5 minutes, "ending in" within 15, "rain for" beyond),
/// otherwise continuing rain. While dry: rain coming (imminent within 5 minutes,
/// "rain in" within 30, dry for now beyond), otherwise dry.
pub open spec fn status_text(is_raining: bool, minutes_to_change: Option<i32>) -> Seq<char> {
    if is_raining {
        match minutes_to_change {
            Some(m) => if m < 0 {
                let a = -m;
                if a <= 5 {
                    "Fin de pluie imminente"@
                } else if a <= 15 {
                    with_minutes("Fin dans ~"@, a as nat)
                } else {
                    with_minutes("Pluie pour ~"@, a as nat)
                }
            } else {
                "Pluie continue"@
            },
            None => "Pluie continue"@,
        }
    } else {
        match minutes_to_change {
            Some(m) => if m > 0 {
                if m <= 5 {
                    "Pluie imminente"@
                } else if m <= 30 {
                    with_minutes("Pluie dans ~"@, m as nat)
                } else {
                    "Sec pour l'instant"@
                }
            } else {
                "Sec"@
            },
            None => "Sec"@,
        }
    }
}

/// `prefix` followed by the decimal `n` and " min".
fn minutes_text(prefix: &str, n: u32) -> (s: String)
    ensures
        s@ == with_minutes(prefix@, n as nat),
{
    let mut s = String::from_str(prefix);
    push_decimal(&mut s, n);
    s.append(" min");
    s
}

/// The human-readable forecast status.
pub fn forecast_status_text(is_raining: bool, minutes_to_change: Option<i32>) -> (s: String)
    requires
        is_raining ==> minutes_to_change != Some(i32::MIN),
    ensures
        s@ == status_text(is_raining, minutes_to_change),
{
    if is_raining {
        match minutes_to_change {
            Some(minutes) => {
                if minutes < 0 {
                    let abs_min = -minutes;
                    if abs_min <= 5 {
                        String::from_str("Fin de pluie imminente")
                    } else if abs_min <= 15 {
                        minutes_text("Fin dans ~", abs_min as u32)
                    } else {
                        minutes_text("Pluie pour ~", abs_min as u32)
                    }
                } else {
                    String::from_str("Pluie continue")
                }
            },
            None => String::from_str("Pluie continue"),
        }
    } else {
        match minutes_to_change {
            Some(minutes) => {
                if minutes > 0 {
                    if minutes <= 5 {
                        String::from_str("Pluie imminente")
                    } else if minutes <= 15 {
                        minutes_text("Pluie dans ~", minutes as u32)
                    } else if minutes <= 30 {
                        minutes_text("Pluie dans ~", minutes as u32)
                    } else {
                        String::from_str("Sec pour l'instant")
                    }
                } else {
                    String::from_str("Sec")
                }
            },
            None => String::from_str("Sec"),
        }
    }
}

} // verus!
