use rain_radar::config::{colors, thresholds, MAILLE};
use rain_radar::error::AppError;
use rain_radar::forecast::{
    find_rain_edge, forecast_from_samples, forecast_status_text, rain_at_pixel, sector_peak,
    RainAtLocation,
};
use rain_radar::grid::{contour_values, decode_radar_grid, extract_subset, RadarGrid};
use rain_radar::maxima::find_local_maxima;
use rain_radar::meteo::{
    calculate_next_poll_time, latest_radar_timestamp, latest_validity_time, needs_download,
    radar_date_string, should_poll, timestamp_from_conversion, RadarLink,
};
use rain_radar::radar::{
    contour_thresholds, radar_local_maxima, summarize_contours, ContourRing, MAXIMA_WINDOW_SIZE,
    MAX_LOCAL_MAXIMA, MIN_THRESHOLD,
};
use rain_radar::raster::{encode_png, intensity_to_rgba, rasterize_radar_data, Rgba, RgbaImage};
use rain_radar::tile::{clamp_pixel_window, clamp_tile_dimension, render_tile};

fn grid(rows: usize, cols: usize, cells: Vec<Option<i32>>) -> RadarGrid {
    RadarGrid::new(rows, cols, cells).expect("cells match the dimensions")
}

const TRANSPARENT: Rgba = Rgba([0, 0, 0, 0]);
const LIGHT_BLUE: Rgba = Rgba([173, 216, 230, 128]);
const GREEN: Rgba = Rgba([0, 255, 0, 153]);
const YELLOW: Rgba = Rgba([255, 255, 0, 179]);
const ORANGE: Rgba = Rgba([255, 165, 0, 204]);
const RED: Rgba = Rgba([255, 0, 0, 230]);

// ---- configuration -------------------------------------------------------

#[test]
fn thresholds_and_colors_name_the_same_levels() {
    let t = thresholds();
    let c = colors();
    assert_eq!(t, vec![("light", 10), ("moderate", 50), ("heavy", 100)]);
    assert_eq!(c, vec![("light", "#00FF00"), ("moderate", "#FFFF00"), ("heavy", "#FF0000")]);
    for i in 0..3 {
        assert_eq!(t[i].0, c[i].0);
    }
}

#[test]
fn contour_thresholds_match_documented_rates() {
    // 0.2 / 0.4 / 0.7 / 1.0 / 1.5 mm/h in 0.01 mm units
    assert_eq!(contour_thresholds(), vec![20, 40, 70, 100, 150]);
    assert_eq!(MIN_THRESHOLD, 20);
    assert_eq!(MAX_LOCAL_MAXIMA, 5);
    assert_eq!(MAXIMA_WINDOW_SIZE, 7);
}

// ---- errors ----------------------------------------------------------------

#[test]
fn error_status_codes_and_messages() {
    assert_eq!(AppError::Config("k".to_string()).status_and_message(), (500, "k".to_string()));
    assert_eq!(AppError::MeteoApi("down".to_string()).status_and_message(), (502, "down".to_string()));
    assert_eq!(AppError::Hdf5("bad".to_string()).status_and_message(), (500, "bad".to_string()));
    assert_eq!(AppError::Projection("p".to_string()).status_and_message(), (500, "p".to_string()));
    assert_eq!(
        AppError::DataNotAvailable.status_and_message(),
        (503, "Radar data not yet available".to_string())
    );
    assert_eq!(
        AppError::InvalidBbox.status_and_message(),
        (400, "Invalid or out-of-bounds bounding box".to_string())
    );
    assert_eq!(AppError::Internal("x".to_string()).status_and_message(), (500, "x".to_string()));
}

// ---- grid ------------------------------------------------------------------

#[test]
fn grid_rejects_wrong_cell_count() {
    assert!(RadarGrid::new(2, 2, vec![Some(1), Some(2), Some(3)]).is_none());
    assert!(RadarGrid::new(0, 5, vec![]).is_some());
    let g = grid(2, 3, vec![Some(1), Some(2), Some(3), Some(4), None, Some(6)]);
    assert_eq!(g.dim(), (2, 3));
    assert_eq!(g.get(1, 1), None);
    assert_eq!(g.get(1, 2), Some(6));
}

#[test]
fn extract_subset_takes_the_window() {
    let g = grid(3, 3, (1..=9).map(Some).collect());
    let s = extract_subset(&g, 1, 3, 0, 2);
    assert_eq!(s.dim(), (2, 2));
    assert_eq!(s.get(0, 0), Some(4));
    assert_eq!(s.get(0, 1), Some(5));
    assert_eq!(s.get(1, 0), Some(7));
    assert_eq!(s.get(1, 1), Some(8));
    let empty = extract_subset(&g, 2, 2, 0, 3);
    assert_eq!(empty.dim(), (0, 3));
}

#[test]
fn decode_radar_grid_maps_special_values() {
    // scaling with gain 0.01 mm: raw v -> v hundredths of a millimetre
    let scaled: Vec<Option<i32>> = (0..=u16::MAX).map(|v| Some(v as i32)).collect();
    let raw = vec![65535, 65534, 7, 250];
    let g = decode_radar_grid(2, 2, &raw, 65535, 65534, &scaled).expect("4 values");
    assert_eq!(g.get(0, 0), None);
    assert_eq!(g.get(0, 1), Some(0));
    assert_eq!(g.get(1, 0), Some(7));
    assert_eq!(g.get(1, 1), Some(250));
    assert!(decode_radar_grid(3, 2, &raw, 65535, 65534, &scaled).is_none());
}

#[test]
fn contour_values_replace_missing_data_with_zero() {
    let g = grid(2, 2, vec![Some(3), None, None, Some(-1)]);
    assert_eq!(contour_values(&g), vec![3, 0, 0, -1]);
}

// ---- local maxima ----------------------------------------------------------

#[test]
fn local_maxima_respect_count_and_window() {
    // Three peaks on one row, two of them within one pixel of each other.
    let g = grid(1, 7, vec![Some(9), Some(0), Some(8), Some(0), Some(0), Some(7), Some(6)]);
    let all = find_local_maxima(&g, 10, 1);
    // window 1: every positive cell is its own window maximum
    assert_eq!(all.iter().map(|m| m.value).collect::<Vec<_>>(), vec![9, 8, 7, 6]);
    let suppressed = find_local_maxima(&g, 10, 3);
    // 6 lies next to 7 and is no window maximum
    assert_eq!(suppressed.iter().map(|m| (m.col, m.value)).collect::<Vec<_>>(), vec![(0, 9), (2, 8), (5, 7)]);
    let capped = find_local_maxima(&g, 2, 3);
    assert_eq!(capped.len(), 2);
    assert_eq!(capped[0].value, 9);
    assert_eq!(capped[1].value, 8);
    let wide = find_local_maxima(&g, 10, 5);
    // window 5 (half 2): 8 at column 2 lies within 2 columns of 9
    assert_eq!(wide.iter().map(|m| m.value).collect::<Vec<_>>(), vec![9, 7]);
}

#[test]
fn local_maxima_ties_keep_row_major_order() {
    let g = grid(3, 3, vec![Some(4), Some(0), Some(4), Some(0), Some(0), Some(0), Some(4), Some(0), Some(4)]);
    let m = find_local_maxima(&g, 10, 1);
    assert_eq!(m.iter().map(|p| (p.row, p.col)).collect::<Vec<_>>(), vec![(0, 0), (0, 2), (2, 0), (2, 2)]);
    let empty = grid(0, 0, vec![]);
    assert!(find_local_maxima(&empty, 5, 7).is_empty());
}

#[test]
fn radar_maxima_are_filtered_and_offset() {
    let g = grid(2, 9, vec![
        Some(30), Some(0), Some(0), Some(0), Some(0), Some(0), Some(0), Some(0), Some(15),
        Some(0), Some(0), Some(0), Some(0), Some(0), Some(0), Some(0), Some(0), Some(0),
    ]);
    let m = radar_local_maxima(&g, 10, 100);
    assert_eq!(m.len(), 1);
    assert_eq!((m[0].row, m[0].col, m[0].value), (10, 100, 30));
}

// ---- raster ----------------------------------------------------------------

#[test]
fn palette_levels() {
    assert_eq!(intensity_to_rgba(None), TRANSPARENT);
    assert_eq!(intensity_to_rgba(Some(19)), TRANSPARENT);
    assert_eq!(intensity_to_rgba(Some(20)), LIGHT_BLUE);
    assert_eq!(intensity_to_rgba(Some(49)), LIGHT_BLUE);
    assert_eq!(intensity_to_rgba(Some(50)), GREEN);
    assert_eq!(intensity_to_rgba(Some(100)), YELLOW);
    assert_eq!(intensity_to_rgba(Some(199)), YELLOW);
    assert_eq!(intensity_to_rgba(Some(200)), ORANGE);
    assert_eq!(intensity_to_rgba(Some(500)), RED);
    assert_eq!(intensity_to_rgba(Some(-5)), TRANSPARENT);
}

#[test]
fn rasterize_at_native_scale_colours_each_cell() {
    let data = grid(2, 2, vec![Some(0), Some(50), Some(100), Some(500)]);
    let img = rasterize_radar_data(&data, 2, 2);
    assert_eq!(img.get_pixel(0, 0), TRANSPARENT);
    assert_eq!(img.get_pixel(1, 0), GREEN);
    assert_eq!(img.get_pixel(0, 1), YELLOW);
    assert_eq!(img.get_pixel(1, 1), RED);
}

#[test]
fn rasterize_interpolates_between_cells() {
    // One row 0 .. 100 drawn 8 pixels wide: pixel x samples the data at x / 4.
    let data = grid(1, 2, vec![Some(0), Some(100)]);
    let img = rasterize_radar_data(&data, 8, 1);
    let expected = [TRANSPARENT, LIGHT_BLUE, GREEN, GREEN, YELLOW, YELLOW, YELLOW, YELLOW];
    for x in 0..8 {
        // 0, 25, 50, 75, then the last cell (100) from x = 4 on
        assert_eq!(img.get_pixel(x, 0), expected[x as usize]);
    }
}

#[test]
fn rasterize_empty_grid_is_transparent() {
    let data = grid(0, 4, vec![]);
    let img = rasterize_radar_data(&data, 3, 2);
    assert_eq!((img.width(), img.height()), (3, 2));
    for y in 0..2 {
        for x in 0..3 {
            assert_eq!(img.get_pixel(x, y), TRANSPARENT);
        }
    }
}

#[test]
fn missing_data_counts_as_zero_in_interpolation() {
    let data = grid(1, 2, vec![None, Some(100)]);
    let img = rasterize_radar_data(&data, 2, 1);
    assert_eq!(img.get_pixel(0, 0), TRANSPARENT);
    assert_eq!(img.get_pixel(1, 0), YELLOW);
}

#[test]
fn raw_bytes_are_rgba_rows() {
    let img = RgbaImage::from_pixel(2, 1, Rgba([1, 2, 3, 4]));
    assert_eq!(img.as_raw(), vec![1, 2, 3, 4, 1, 2, 3, 4]);
}

#[test]
fn png_encoding_is_a_png_file_of_the_image() {
    let img = RgbaImage::from_pixel(3, 2, Rgba([10, 20, 30, 40]));
    let png = encode_png(&img);
    assert_eq!(&png[0..8], &[137, 80, 78, 71, 13, 10, 26, 10]);
    assert_ne!(png, img.as_raw());
    // IHDR carries the dimensions (big-endian) right after its length and type.
    assert_eq!(&png[12..16], b"IHDR");
    assert_eq!(&png[16..20], &[0, 0, 0, 3]);
    assert_eq!(&png[20..24], &[0, 0, 0, 2]);
}

// ---- tile ------------------------------------------------------------------

#[test]
fn tile_dimensions_are_clamped() {
    assert_eq!(clamp_tile_dimension(0), 1);
    assert_eq!(clamp_tile_dimension(1), 1);
    assert_eq!(clamp_tile_dimension(256), 256);
    assert_eq!(clamp_tile_dimension(2048), 2048);
    assert_eq!(clamp_tile_dimension(5000), 2048);
}

#[test]
fn pixel_window_clamping() {
    assert_eq!(clamp_pixel_window(-3, 2, 1, 10, 5, 4), Ok((0, 2, 1, 4)));
    // a box wholly north or west of the grid (negative upper bound) holds no pixel
    assert_eq!(clamp_pixel_window(-4, -1, 0, 2, 5, 4), Err(AppError::InvalidBbox));
    assert_eq!(clamp_pixel_window(0, 2, -7, -2, 5, 4), Err(AppError::InvalidBbox));
    assert_eq!(clamp_pixel_window(1, -1, 0, 2, 5, 4), Err(AppError::InvalidBbox));
    assert_eq!(clamp_pixel_window(0, 0, 0, 2, 5, 4), Err(AppError::InvalidBbox));
    assert_eq!(clamp_pixel_window(5, 9, 0, 2, 5, 4), Err(AppError::InvalidBbox));
    assert_eq!(clamp_pixel_window(2, 2, 0, 2, 5, 4), Err(AppError::InvalidBbox));
    assert_eq!(clamp_pixel_window(0, 2, 3, 1, 5, 4), Err(AppError::InvalidBbox));
}

#[test]
fn render_tile_encodes_the_window() {
    let g = grid(2, 2, vec![Some(0), Some(50), Some(100), Some(500)]);
    let png = render_tile(&g, 0, 2, 0, 2, 0, 3000).expect("window inside the grid");
    assert_eq!(&png[0..8], &[137, 80, 78, 71, 13, 10, 26, 10]);
    // width clamped to 1, height to 2048
    assert_eq!(&png[16..20], &[0, 0, 0, 1]);
    assert_eq!(&png[20..24], &[0, 0, 8, 0]);
    assert_eq!(render_tile(&g, 3, 4, 0, 2, 256, 256), Err(AppError::InvalidBbox));
    assert_eq!(render_tile(&g, -5, -1, 0, 2, 256, 256), Err(AppError::InvalidBbox));
}

// ---- forecast --------------------------------------------------------------

#[test]
fn rain_at_pixel_reads_the_cell() {
    let g = grid(2, 2, vec![Some(25), Some(19), None, Some(20)]);
    assert_eq!(rain_at_pixel(&g, 0, 0), RainAtLocation { rain_rate: 25, is_raining: true });
    assert_eq!(rain_at_pixel(&g, 0, 1), RainAtLocation { rain_rate: 19, is_raining: false });
    assert_eq!(rain_at_pixel(&g, 1, 0), RainAtLocation { rain_rate: 0, is_raining: false });
    assert_eq!(rain_at_pixel(&g, 1, 1), RainAtLocation { rain_rate: 20, is_raining: true });
    assert_eq!(rain_at_pixel(&g, -1, 0), RainAtLocation { rain_rate: 0, is_raining: false });
    assert_eq!(rain_at_pixel(&g, 0, 2), RainAtLocation { rain_rate: 0, is_raining: false });
}

#[test]
fn sector_peak_is_the_largest_valid_sample() {
    let g = grid(2, 2, vec![Some(25), Some(-4), None, Some(70)]);
    assert_eq!(sector_peak(&g, &vec![(0, 0), (1, 1), (5, 5)]), 70);
    assert_eq!(sector_peak(&g, &vec![(0, 1), (1, 0), (-1, 0)]), 0);
    assert_eq!(sector_peak(&g, &vec![]), 0);
}

#[test]
fn rain_edge_finds_the_nearest_transition() {
    // dry row with rain starting at column 3
    let g = grid(1, 6, vec![Some(0), Some(0), Some(5), Some(30), Some(40), Some(0)]);
    let east = vec![(0, 1), (0, 2), (0, 3), (0, 4)];
    let west = vec![(0, -1)];
    let (d, m) = find_rain_edge(&g, &vec![east.clone(), west.clone()], false);
    assert_eq!(d, Some(1500));
    assert_eq!(m, Some(3));
    // seen from inside the rain, the rain ends one sample away
    let (d, m) = find_rain_edge(&g, &vec![vec![(0, 4), (0, 5)]], true);
    assert_eq!(d, Some(1000));
    assert_eq!(m, Some(-2));
    // no transition before the ray leaves the grid
    assert_eq!(find_rain_edge(&g, &vec![west, vec![(0, 0), (0, 1), (0, 9), (0, 3)]], false), (None, None));
}

#[test]
fn forecast_combines_location_sectors_and_edge() {
    let g = grid(1, 4, vec![Some(0), Some(0), Some(30), Some(60)]);
    let f = forecast_from_samples(
        &g,
        (0, 0),
        &vec![vec![(0, 1), (0, 2)], vec![(0, 3)], vec![]],
        &vec![vec![(0, 1), (0, 2), (0, 3)]],
    );
    assert_eq!(f.current_rain_rate, 0);
    assert!(!f.is_raining);
    assert_eq!(f.sectors, vec![30, 60, 0]);
    assert_eq!(f.distance_to_edge_m, Some(1000));
    assert_eq!(f.minutes_to_change, Some(2));
}

#[test]
fn status_texts() {
    assert_eq!(forecast_status_text(true, Some(-3)), "Fin de pluie imminente");
    assert_eq!(forecast_status_text(true, Some(-5)), "Fin de pluie imminente");
    assert_eq!(forecast_status_text(true, Some(-12)), "Fin dans ~12 min");
    assert_eq!(forecast_status_text(true, Some(-40)), "Pluie pour ~40 min");
    assert_eq!(forecast_status_text(true, Some(7)), "Pluie continue");
    assert_eq!(forecast_status_text(true, None), "Pluie continue");
    assert_eq!(forecast_status_text(false, Some(1)), "Pluie imminente");
    assert_eq!(forecast_status_text(false, Some(9)), "Pluie dans ~9 min");
    assert_eq!(forecast_status_text(false, Some(30)), "Pluie dans ~30 min");
    assert_eq!(forecast_status_text(false, Some(31)), "Sec pour l'instant");
    assert_eq!(forecast_status_text(false, Some(-2)), "Sec");
    assert_eq!(forecast_status_text(false, None), "Sec");
    assert_eq!(forecast_status_text(true, Some(-100)), "Pluie pour ~100 min");
}

// ---- contours ---------------------------------------------------------------

#[test]
fn contour_summary_keeps_drawable_rings() {
    let rings = vec![
        ContourRing { threshold: 20, points: 5, polyline: "abc".to_string() },
        ContourRing { threshold: 20, points: 3, polyline: "tiny".to_string() },
        ContourRing { threshold: 40, points: 6, polyline: String::new() },
        ContourRing { threshold: 70, points: 4, polyline: "xyz".to_string() },
    ];
    let s = summarize_contours(&rings);
    assert_eq!(s.contour_count, 2);
    assert_eq!(s.total_points, 9);
    assert_eq!(s.contours[0].rain_rate, 20);
    assert_eq!(s.contours[0].polyline, "abc");
    assert_eq!(s.contours[1].rain_rate, 70);
    assert_eq!(s.contours[1].points, 4);
}

// ---- Meteo-France timestamps and polling ------------------------------------

fn link(href: &str, validity: Option<&str>) -> RadarLink {
    RadarLink { href: href.to_string(), validity_time: validity.map(|v| v.to_string()) }
}

#[test]
fn latest_timestamp_is_taken_from_the_500m_link() {
    let links = vec![
        link("https://x/produit?maille=1000", Some("2026-01-27T17:35:00Z")),
        link("https://x/produit?maille=500", None),
        link("https://x/produit?maille=500", Some("2026-01-27T17:40:00Z")),
        link("https://x/produit?maille=500", Some("2026-01-27T17:45:00Z")),
    ];
    assert_eq!(latest_validity_time(&links), Some("2026-01-27T17:40:00Z".to_string()));
    assert_eq!(latest_radar_timestamp(&links), Ok("20260127T174000Z".to_string()));
}

#[test]
fn latest_timestamp_is_converted_to_utc() {
    let links = vec![link("maille=500", Some("2026-01-27T18:40:00+01:00"))];
    assert_eq!(latest_radar_timestamp(&links), Ok("20260127T174000Z".to_string()));
}

#[test]
fn latest_timestamp_errors() {
    let none = vec![link("maille=1000", Some("2026-01-27T17:40:00Z"))];
    assert_eq!(
        latest_radar_timestamp(&none),
        Err(AppError::MeteoApi(format!("No radar data available for maille {}", MAILLE)))
    );
    let bad = vec![link("maille=500", Some("not a date"))];
    match latest_radar_timestamp(&bad) {
        Err(AppError::MeteoApi(m)) => assert!(m.starts_with("Invalid timestamp: ") && m.len() > 19),
        other => panic!("unexpected {:?}", other),
    }
    assert_eq!(
        timestamp_from_conversion(Err("oops".to_string())),
        Err(AppError::MeteoApi("Invalid timestamp: oops".to_string()))
    );
}

#[test]
fn next_poll_time_is_seven_minutes_after_the_radar_time() {
    // 2026-01-27T14:35:00Z
    assert_eq!(calculate_next_poll_time("20260127T143500Z"), 1_769_524_500 + 420);
    assert_eq!(calculate_next_poll_time("garbage"), 0);
}

#[test]
fn polling_decisions() {
    assert!(should_poll(0, None));
    assert!(!should_poll(1_769_524_500 + 419, Some("20260127T143500Z")));
    assert!(should_poll(1_769_524_500 + 420, Some("20260127T143500Z")));
    let a = "20260127T143500Z".to_string();
    let b = "20260127T144000Z".to_string();
    assert!(needs_download(None, &a));
    assert!(!needs_download(Some(&a), &a));
    assert!(needs_download(Some(&a), &b));
}

#[test]
fn radar_date_string_joins_date_and_time() {
    assert_eq!(radar_date_string("20260127", "143500"), "20260127T143500Z");
}
