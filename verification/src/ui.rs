//! State of the screen that does not depend on any drawing backend.

pub mod format;
pub mod screen;
pub mod viewport;

pub use screen::{DisplayMode, OrderBy, Screen};
