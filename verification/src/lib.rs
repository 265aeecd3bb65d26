//! Runtime introspection of a process's own loaded executable image.
//!
//! The crate models the image as a validated base address plus a snapshot of
//! its bytes, parses the portable-executable section table into an ordered
//! list of [`Section`]s, scans byte ranges for patterns through the [`Find`]
//! capability, and keeps the bookkeeping of inline hooks: a table of live
//! hook slots together with guards that restore the displaced prologue bytes
//! exactly once.

mod base;
pub mod find;
mod header;
pub mod hook;
pub mod program;
mod section;
pub mod symbol;

pub use base::Base;
pub use header::Header;
pub use find::Find;
pub use section::Section;
