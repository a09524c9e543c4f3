pub mod bigint;
pub mod digit;
pub mod format_integer;
pub mod laws;
pub mod pattern;
mod text;

pub use format_integer::{format_integer, Picture};
pub use pattern::Error;
