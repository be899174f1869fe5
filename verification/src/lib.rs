//! Presentation primitives for a terminal resource monitor: compact
//! human-readable counts, a fixed-width threshold-colored gauge, and
//! canonical LVM names for device-mapper paths.

pub mod alias;
pub mod ansi;
mod color;
pub mod count;
pub mod render;
mod strutil;

pub use crate::alias::lvm_alias;
pub use crate::count::format_count;
pub use crate::render::bar;
pub use crate::render::Theme;
