//! Verified core of a desktop companion: followed channels and installable pets.
//!
//! The crate decides; it performs no input or output but for a look at the clock. Functions work
//! on plain values and carry contracts over mathematical models (`deep_view`) of those values;
//! only of the time, [`channels::now_ms`], there is nothing to promise.

pub mod channels;
pub mod duplicate;
pub mod json;
pub mod order;
pub mod pets;
pub mod strmap;
pub mod text;
