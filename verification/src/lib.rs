use vstd::prelude::*;

pub mod crc32;
pub mod wire;
pub mod text;
pub mod envelope;
pub mod batch;
pub mod frame;
pub mod manifest;
pub mod codec;
pub mod registry;
pub mod generic_enhanced;
pub mod vendor_enhanced;
pub mod interactive;
pub mod virtual_serial;
pub mod host_session;
pub mod display;
pub mod args;
pub mod esp_enhanced;
pub mod tui;
pub mod ports;
pub mod passthrough;
pub mod tui_state;
pub mod settings;
pub mod tui_view;

verus! {

} // verus!
