//! Verified core logic of the WorkShadow screen-activity recorder.
pub mod capture;
pub mod text;
pub mod privacy;
pub mod storage;
pub mod ocr;
pub mod search;
pub mod config;
pub mod ipc;
