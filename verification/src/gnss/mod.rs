//! Satellite positioning: sentence framing, fix decoding and the decisions of
//! the positioning task.

pub mod driver;
pub mod error;
pub mod nmea;
pub mod number;
pub mod positioning;
pub mod rmc;
pub mod sentence;
