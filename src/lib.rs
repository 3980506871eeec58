//! Conversion between text, its bytes written in hexadecimal, and the
//! characters that a free-form hexadecimal text stands for.
pub mod decode;
pub mod encode;
pub mod model;
pub mod round_trip;
