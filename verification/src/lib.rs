//! Verified core of a Kakoune language-server client: position and text-edit
//! translation between LSP and Kakoune, command quoting, and markdown rendering.

pub mod batches;
pub mod capabilities;
pub mod controller;
pub mod diagnostics;
pub mod editor_request;
pub mod editor_transport;
pub mod language_features;
pub mod legacy_config;
pub mod outstanding;
pub mod markdown;
pub mod markup;
pub mod patterns;
pub mod position;
pub mod progress;
pub mod project_root;
pub mod request;
pub mod request_params;
pub mod rope;
pub mod settings;
pub mod show_message;
pub mod strings;
pub mod text_edit;
pub mod text_sync;
pub mod types;
pub mod util;
pub mod utf8_lemmas;
