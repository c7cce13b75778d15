//! Balloon trajectory prediction over a gridded atmospheric wind field.
//!
//! All quantities are fixed-point integers:
//! latitudes and longitudes in microdegrees, altitudes in millimeters,
//! velocities in millimeters per second, temperatures in millidegrees,
//! times in Unix seconds, and interpolation weights in parts per million.

pub mod align;
pub mod arith;
pub mod cache;
pub mod clock;
pub mod dataset;
pub mod dataset_reader;
pub mod errors;
pub mod footprint;
pub mod generational_pqueue;
pub mod grib;
pub mod guidance;
pub mod navigation_node;
pub mod point;
pub mod predictor;
pub mod trig;
