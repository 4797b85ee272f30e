//! OpenFlow's dictation logic: transcript cleanup, dictionary and snippet
//! expansion, note text conversion, gesture recognition and settings rules.
pub mod fn_gesture;
pub mod history;
pub mod notes;
pub mod strs;
pub mod models;
pub mod prompts;
pub mod settings;
pub mod modes;
pub mod stt;
pub mod shortcuts;
pub mod scratchpad;
pub mod sorting;
pub mod lex;
pub mod profiles;
pub mod text;
pub mod llm;
pub mod suggestions;
pub mod stats;
pub mod stt_profiles;
pub mod cloud_stt;
pub mod error;
pub mod output;
pub mod pipeline;
pub mod commands;
pub mod hud;
pub mod permissions;
pub mod apps;
pub mod notes_round_trip;
pub mod tray;
