//! MP4 container inspection.
pub mod boxes;
pub mod tables;
pub mod container;
