//! Course-requirement text of an academic catalog, read into boolean trees
//! over course identifiers.

pub mod courses;
pub mod error;
pub mod exclusion;
pub mod identifier;
pub mod programs;
pub mod requirements;
pub mod taxonomy;
pub mod text;
pub mod tree;
