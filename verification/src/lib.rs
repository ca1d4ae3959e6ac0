//! Mood-driven soundtrack selection for manga reading: mood vocabulary,
//! window voting, selective repair planning and the chapter analysis pipeline.

pub mod api;
pub mod json;
pub mod text;
pub mod text_map;
pub mod binaries;
pub mod cache;
pub mod director;
pub mod ffmpeg;
pub mod llama;
pub mod mood_parse;
pub mod page_map;
pub mod pipeline;
pub mod prompts;
pub mod reply;
pub mod runtime;
pub mod types;
pub mod visible;
pub mod vision;
pub mod winner;
pub mod youtube;
pub mod youtube_cache;
pub mod yt_dlp;
pub mod yt_download;
pub mod yt_listing;
