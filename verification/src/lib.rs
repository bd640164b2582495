//! A color allocator for terminal dashboards: hands out one display color per
//! tracked entity, preferring a caller-supplied ordered list of named colors
//! and falling back to sequential indexed palette slots once the list is
//! exhausted, never repeating an automatically chosen slot.

pub mod allocator;
pub mod color;

pub use allocator::Colors;
pub use color::{Color, ColorError};
