//! Resolution of file names to MIME types through weighted glob patterns,
//! as in the shared MIME-info database.

pub mod outside;
pub mod entry;
pub mod fields;
pub mod registry;
pub mod shape;

pub use shape::{determine_type, GlobType, ShapeModel};
pub use entry::{Glob, GlobModel};
pub use registry::GlobMap;
pub use registry::{read_globs_v1_from_lines, read_globs_v2_from_lines};
