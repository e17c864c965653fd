//! The verified core of a terminal chat client: the editor, the activity
//! spine, the pickers, the slash commands and the width-aware transcript
//! renderer. Terminal input and output, the async run loop and the provider
//! engine live outside of this crate and talk to it in plain values.
pub mod text;
pub mod style;
pub mod width;
pub mod wrap;
pub mod json;
pub mod model;
pub mod input;
pub mod picker;
pub mod kitty;
pub mod spine;
pub mod app;
pub mod activity;
pub mod snapshot;
pub mod messages;
pub mod events;
pub mod keys;
pub mod runs;
pub mod pace;
pub mod commands;
pub mod choices;
pub mod laws;
pub mod markdown;
pub mod entries;
pub mod history;
pub mod renderer;
pub mod artwork;
pub mod layout;
pub mod scene;
pub mod panes;
pub mod draw;
pub mod view_laws;
pub mod text_laws;
pub mod base_laws;
pub mod result_laws;
pub mod picker_laws;
pub mod spine_laws;
pub mod key_laws;
pub mod screen_laws;
pub mod entry_laws;
pub mod command_laws;
pub mod paint_laws;
