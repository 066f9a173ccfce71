//! The checks and rewrites between parsing and translation: identifier
//! resolution, type checking and loop labeling.
pub mod identifier_resolution;
pub mod loop_labeling;
pub mod type_checking;

pub use identifier_resolution::{resolve_identifiers, try_resolve_identifiers};
pub use loop_labeling::{label_loops, try_label_loops};
pub use type_checking::{check_types, try_check_types};
