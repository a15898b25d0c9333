//! Small verified libraries: a frame codec, request schedulers, configuration readers,
//! note and session stores, and text helpers.
pub mod infersched;
pub mod infersched_lite;
pub mod framecodec;
pub mod text;
pub mod linefmt;
pub mod cfgtool;
pub mod notes;
pub mod sessions;
pub mod admission;
pub mod limit;
pub mod cfg_v1;
