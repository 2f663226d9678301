//! Input dispatch and window layout for a terminal editor.
//!
//! Keys are parsed from text (`key`), bound to actions in tries (`keymaps`),
//! and resolved through the scopes that apply to the focused document, with
//! count/operator/motion gestures composed into command requests
//! (`input_engine`). Windows are laid out by a binary split tree (`layout`,
//! `popup`) and kept in a registry with the active window (`workspace`).

pub mod entries;
pub mod input_engine;
pub mod key;
pub mod keymaps;
pub mod layout;
pub mod popup;
pub mod text;
pub mod token;
pub mod workspace;
