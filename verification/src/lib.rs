//! Locating and checking the data that a video page carries.
pub mod error;
pub mod fetcher;
pub mod id;
pub mod json;
pub mod json_text;
pub mod outside;
pub mod pattern;
pub mod playability;
pub mod weburl;
