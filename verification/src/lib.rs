//! A toolkit of everyday terminal tasks: checksum listings, clean copies of
//! project trees, release archives, renaming and deleting files by their
//! position, MP3 and MP4 conversion with ffmpeg, and digests of the commits
//! of many git repositories. This crate holds the decisions and the text
//! processing of those tasks; the program around it does the file system,
//! process and terminal work.

pub mod text;
pub mod sort;
pub mod paths;
pub mod media;
pub mod mp4_optimize;
pub mod mp3_compress;
pub mod deleter;
pub mod rename;
pub mod sign;
pub mod copy_clean;
pub mod build_and_sign;
pub mod time;
pub mod git;
pub mod path_order;
pub mod digest;
pub mod report;
pub mod prompt;
pub mod git_digest;
pub mod clone_repo;
pub mod optimize;
