//! Rain radar processing: the integer model of a Meteo-France ACRR radar grid,
//! local-maximum detection, PNG tile rasterization, forecast sampling and the
//! decisions of the polling loop.
use vstd::prelude::*;

pub mod config;
pub mod error;
pub mod forecast;
pub mod grid;
pub mod maxima;
pub mod meteo;
pub mod radar;
pub mod raster;
pub mod text;
pub mod tile;

verus! {

} // verus!
