# rain_radar

Rain radar processing for a bike-computer overlay, built on Meteo-France ACRR radar
data and verified with Verus.

- `src/` is the verified library. The radar grid (`grid`) holds rain intensities as
  integers in 0.01 mm units, `None` where there is no data. It stands in for the
  `ndarray::Array2<f64>` the server reads: a floating-point array cannot be held in
  verified code, so the server rounds each value to the unit and builds the grid
  (`decode_radar_grid`), and `extract_subset` takes the place of array slicing. On it stand local-maximum
  detection with non-maximum suppression (`maxima`), bilinear rasterization into a
  transparent RGBA overlay and its PNG encoding (`raster`, `tile`), the forecast around
  a location (`forecast`), the radar endpoint's contour summary (`radar`), Meteo-France
  timestamps and the polling decisions (`meteo`), the service's errors (`error`) and
  configuration (`config`).
- `app/` is the HTTP server (axum) around the library: downloading and reading the
  HDF5 radar file, projections, contour extraction, clipping and polyline encoding,
  which work in floating point.
- `tests/` exercises the library.
