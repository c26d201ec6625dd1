//! Verified core of the awsm-audio node-graph editor: the WebAudio schema
//! model and its structural validation, node port geometry counts, the
//! worklet shim source, WAV framing, and the editor's small decision tables.

pub mod enums;
pub mod schema;
pub mod validate;
pub mod validate_laws;
pub mod text;
pub mod worklet;
pub mod ports;
pub mod layout;
pub mod layout_laws;
pub mod wav;
pub mod piano_roll;
pub mod curve;
pub mod command;
pub mod context_menu;
pub mod search;
pub mod inspector;
