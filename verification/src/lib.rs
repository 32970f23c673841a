//! Scanning of REAPER project trees: which files a project refers to and how.
pub mod argparse;
pub mod files;
pub mod rpp;
