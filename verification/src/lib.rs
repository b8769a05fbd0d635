pub mod dates;
pub mod db;
pub mod downloader;
pub mod error;
pub mod hashing;
pub mod illustration_animation;
pub mod illustration_store;
pub mod keyed;
pub mod login;
pub mod regex_match;
pub mod text;
