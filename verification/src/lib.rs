//! Duplicate-file detection: size bucketing, adaptive content fingerprints,
//! grouping with wasted-space accounting, and the small pure helpers of the
//! surrounding file toolkit.

pub mod hex;
pub mod fingerprint;
pub mod model;
pub mod ranking;
pub mod grouping;
pub mod dedup;
pub mod buckets;
pub mod progress;
pub mod scan;
pub mod session;
pub mod guarantees;
pub mod text;
pub mod logger;
pub mod file_stats;
pub mod watermark;
pub mod ffmpeg_utils;
pub mod media;
pub mod convert;
pub mod deletion;
pub mod probe;
pub mod video;
