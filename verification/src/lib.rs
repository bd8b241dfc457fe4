use vstd::prelude::*;

pub mod text;
pub mod numparse;
mod seq_filter;
pub mod strmap;
pub mod wire;
pub mod audio_ipc;
pub mod video_ipc;
pub mod kpm_ipc;
pub mod format;
pub mod kpm_json;
pub mod audio_buffer;
pub mod video_buffer;
pub mod encoder;
pub mod selector_config;
pub mod string_store;
pub mod kpm_calculator;
pub mod streams;
pub mod selector;
pub mod ytm;
pub mod capture_selector;
pub mod ws_payload;
pub mod processes;
pub mod stream_manager;
pub mod capture_service;
pub mod keystrokes;

verus! {

} // verus!
