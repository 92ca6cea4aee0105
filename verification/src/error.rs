//! Errors of the radar service and the HTTP status and message each one is answered with.
use vstd::prelude::*;

verus! {

/// An error of the radar service.
#[derive(Debug, PartialEq, Eq)]
pub enum AppError {
    /// Configuration error (such as a missing API key).
    Config(String),
    /// The Meteo-France API failed or answered something unusable.
    MeteoApi(String),
    /// The HDF5 radar file could not be read.
    Hdf5(String),
    /// A coordinate projection failed.
    Projection(String),
    /// No radar data has been downloaded yet.
    DataNotAvailable,
    /// The bounding box does not cover any radar pixel.
    InvalidBbox,
    /// Any other internal failure.
    Internal(String),
}

/// HTTP 400: the request is invalid.
pub const STATUS_BAD_REQUEST: u16 = 400;

/// HTTP 500: the server failed.
pub const STATUS_INTERNAL_SERVER_ERROR: u16 = 500;

/// HTTP 502: the upstream API failed.
pub const STATUS_BAD_GATEWAY: u16 = 502;

/// HTTP 503: the service has no data yet.
pub const STATUS_SERVICE_UNAVAILABLE: u16 = 503;

/// The status code answering `e`.
pub open spec fn error_status(e: AppError) -> u16 {
    match e {
        AppError::Config(_) => 500,
        AppError::MeteoApi(_) => 502,
        AppError::Hdf5(_) => 500,
        AppError::Projection(_) => 500,
        AppError::DataNotAvailable => 503,
        AppError::InvalidBbox => 400,
        AppError::Internal(_) => 500,
    }
}

/// The message answering `e`: the carried text, or a fixed sentence for the two
/// variants without one.
pub open spec fn error_message(e: AppError) -> Seq<char> {
    match e {
        AppError::Config(m) => m@,
        AppError::MeteoApi(m) => m@,
        AppError::Hdf5(m) => m@,
        AppError::Projection(m) => m@,
        AppError::DataNotAvailable => "Radar data not yet available"@,
        AppError::InvalidBbox => "Invalid or out-of-bounds bounding box"@,
        AppError::Internal(m) => m@,
    }
}

impl AppError {
    /// The HTTP status code and the message of the JSON error answer.
    pub fn status_and_message(&self) -> (res: (u16, String))
        ensures
            res.0 == error_status(*self),
            res.1@ == error_message(*self),
    {
        match self {
            AppError::Config(msg) => (STATUS_INTERNAL_SERVER_ERROR, msg.clone()),
            AppError::MeteoApi(msg) => (STATUS_BAD_GATEWAY, msg.clone()),
            AppError::Hdf5(msg) => (STATUS_INTERNAL_SERVER_ERROR, msg.clone()),
            AppError::Projection(msg) => (STATUS_INTERNAL_SERVER_ERROR, msg.clone()),
            AppError::DataNotAvailable => (
                STATUS_SERVICE_UNAVAILABLE,
                String::from_str("Radar data not yet available"),
            ),
            AppError::InvalidBbox => (
                STATUS_BAD_REQUEST,
                String::from_str("Invalid or out-of-bounds bounding box"),
            ),
            AppError::Internal(msg) => (STATUS_INTERNAL_SERVER_ERROR, msg.clone()),
        }
    }
}

} // verus!
