//! Planning and bookkeeping for a downloader of films and shows.

pub mod text;
pub mod unmask;
pub mod types;
pub mod progress;
pub mod config;
pub mod worker;
pub mod downloader;
pub mod subtitles;
pub mod api;
pub mod ram;
