//! Verified core of a Telegram bot: music callback protocol, lyric and
//! caption formatting, MP4/ALAC/zip byte parsing, ROM download links and the
//! small text helpers around them.
use vstd::prelude::*;

pub mod text;
pub mod num;
pub mod urlcodec;
pub mod error;
pub mod provider;
pub mod callback;
pub mod rom_links;
pub mod zip;
pub mod rom_core;
pub mod settings;
pub mod music_text;
pub mod mp4;
pub mod netease;
pub mod tencent;
pub mod kugou;
pub mod apple;
pub mod bilibili;
pub mod basics;
pub mod alac;
pub mod hls;
pub mod command;
pub mod urlparts;
pub mod soda;
pub mod menus;
pub mod rom_map;
pub mod rom_query;
pub mod rom_security;
pub mod callback_flow;
pub mod freq;
pub mod soda_key;
pub mod rom_crypto;
pub mod progressive;
pub mod cenc;
pub mod rom_session;
pub mod fragments;
pub mod switches;
