//! Arbitrary-precision integers as sequences of base-256 digits.
//!
//! An [`Integer`] wraps `rug::Integer` and converts it to and from its
//! digits, least-significant digit first. A [`SeqDecoder`] collects the
//! elements of an incoming sequence and builds the integer once the sequence
//! is exhausted. The module [`digits`] holds the mathematics of digit
//! sequences, and [`laws`] what holds between writing and reading.

pub mod adapter;
pub mod digits;
pub mod integer;
pub mod laws;

pub use adapter::{DecodeStep, Element, FormatError, SeqDecoder};
pub use integer::{Integer, Sign, MAX_DIGITS};
