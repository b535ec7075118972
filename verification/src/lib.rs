//! The data model of overwrite operations and the file format they are
//! saved in, verified with Verus.

pub mod text;
pub mod lines;
pub mod operation;
pub mod laws;
pub mod hash;
