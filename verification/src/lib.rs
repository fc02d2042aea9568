//! Open a disk image, walk its partition table and describe what is inside as
//! one JSON document.
//!
//! The library holds every decision of the `diskprobe` program and no I/O of
//! its own: a program around it reads files and devices and hands the results
//! over as plain values.

pub mod args;
pub mod container;
pub mod guid;
pub mod json;
pub mod kinds;
pub mod magic;
pub mod meaning;
pub mod probe;
pub mod read;
pub mod report;
pub mod run;
pub mod session;
pub mod source;
pub mod text;
pub mod value;
