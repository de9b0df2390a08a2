//! The download engine: file creation and the HTTP downloader.
pub mod file_utils;
pub mod http_downloader;
