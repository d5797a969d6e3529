//! A weather report client's logic: bounded admission of concurrent requests
//! over a fixed list of targets, and the console line for each reading.

pub mod coordinator;
pub mod icons;
pub mod report;
