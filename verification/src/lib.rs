//! Verified core of the Vidya theme layer: the pure decisions behind its
//! widgets, the retained node tree of its C ABI, the AVCC → Annex B video
//! converter and the Gleam bridge protocol.

pub mod hotkeys;
pub mod text;
pub mod tree;
pub mod avcc;
pub mod icons;
pub mod emoji_pack;
pub mod layout;
pub mod theme;
pub mod gleam;
pub mod app_icon;
pub mod video;
pub mod ffi;
pub mod shell;
pub mod demo;
pub mod host_string;
pub mod props;
pub mod mp4_probe;
