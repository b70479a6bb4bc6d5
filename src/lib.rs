//! Locating a package repository on disk and merging release entries into a
//! package descriptor.
pub mod descriptor;
pub mod locate;
pub mod request;
