use rain_radar::forecast::RAIN_THRESHOLD;
use rain_radar::grid::RadarGrid;
use rain_radar::maxima::find_local_maxima;
use rain_radar::raster::{encode_png, intensity_to_rgba, rasterize_radar_data, Rgba, RgbaImage};
use rain_radar::tile::{default_height, default_width};

fn grid(rows: usize, cols: usize, cells: Vec<Option<i32>>) -> RadarGrid {
    RadarGrid::new(rows, cols, cells).expect("cells match the dimensions")
}

#[test]
fn test_rain_threshold() {
    assert_eq!(RAIN_THRESHOLD as f64, 20.0); // 0.2 mm/h
}

#[test]
fn test_default_dimensions() {
    assert_eq!(default_width(), 256);
    assert_eq!(default_height(), 256);
}

#[test]
fn test_intensity_to_rgba_transparent() {
    let color = intensity_to_rgba(Some(0));
    assert_eq!(color, Rgba([0, 0, 0, 0]));
}

#[test]
fn test_intensity_to_rgba_light_blue() {
    let color = intensity_to_rgba(Some(25)); // 0.25 mm/h
    assert_eq!(color, Rgba([173, 216, 230, 128]));
}

#[test]
fn test_intensity_to_rgba_red() {
    let color = intensity_to_rgba(Some(600)); // 6 mm/h
    assert_eq!(color, Rgba([255, 0, 0, 230]));
}

#[test]
fn test_rasterize_simple() {
    let data = grid(2, 2, vec![Some(0), Some(50), Some(100), Some(500)]);
    let img = rasterize_radar_data(&data, 2, 2);
    assert_eq!(img.width(), 2);
    assert_eq!(img.height(), 2);
}

#[test]
fn test_encode_png() {
    let img = RgbaImage::from_pixel(4, 4, Rgba([255, 0, 0, 255]));
    let png_bytes = encode_png(&img);

    // PNG magic bytes
    assert_eq!(&png_bytes[0..8], &[137, 80, 78, 71, 13, 10, 26, 10]);
}

#[test]
fn test_find_local_maxima_simple() {
    let data = grid(
        4,
        5,
        vec![
            Some(0), Some(0), Some(0), Some(0), Some(0),
            Some(0), Some(5), Some(0), Some(0), Some(0),
            Some(0), Some(0), Some(0), Some(10), Some(0),
            Some(0), Some(0), Some(0), Some(0), Some(0),
        ],
    );
    let maxima = find_local_maxima(&data, 5, 3);

    assert_eq!(maxima.len(), 2);
    assert_eq!(maxima[0].value, 10);
    assert_eq!(maxima[0].row, 2);
    assert_eq!(maxima[0].col, 3);
    assert_eq!(maxima[1].value, 5);
}

#[test]
fn test_find_local_maxima_with_nan() {
    let data = grid(
        3,
        3,
        vec![
            None, Some(5), None,
            Some(5), Some(10), Some(5),
            None, Some(5), None,
        ],
    );
    let maxima = find_local_maxima(&data, 5, 3);

    assert_eq!(maxima.len(), 1);
    assert_eq!(maxima[0].value, 10);
}
