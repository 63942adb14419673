//! Trigger-word detection for a background keyboard sound player.
//!
//! Physical key presses are mapped to the characters they carry in the
//! QWERTY and ЙЦУКЕН layouts (`layout_map`), accumulated in two parallel
//! input buffers that recognise trigger words and phrases by suffix
//! (`buffer_manager`, with the text helpers of `text`), and a fired trigger
//! picks one of its sounds by weight (`sound_pick`).

pub mod buffer_manager;
pub mod layout_map;
pub mod sound_pick;
pub mod text;
