//! Terminal video: ANSI frame rendering, 256-colour quantisation and dithering,
//! the container format with its seek index, and the player's control logic.

pub mod bytes;
pub mod error;
pub mod varint;
pub mod seek;
pub mod lz4;
pub mod side_data;
pub mod packet;
pub mod text;
pub mod sub_rect;
pub mod metadata;
pub mod compress;
pub mod zstandard;
pub mod processors;
pub mod encoder;
pub mod counters;
pub mod states;
pub mod reader;
pub mod palette;
pub mod ansi;
pub mod bayer;
pub mod candidates;
pub mod dither;
pub mod floyd_steinberg;
pub mod video;
pub mod player;
pub mod subtitles;
