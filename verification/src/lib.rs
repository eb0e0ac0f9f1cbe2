//! The logic of a Wi-Fi voice speaker: the streaming voice protocol, the WebSocket
//! framing under it, the subtitle model and its partial redraw, the audio ring
//! buffer, and the state machine that ties them together. Everything here is a
//! function of plain values; drivers, sockets and timers live in the firmware
//! around it.
pub mod config;
pub mod text;

pub mod json;
pub mod json_laws;
pub mod base64;
pub mod round;
pub mod voice_client;
pub mod ws;
pub mod font;
pub mod wrap;
pub mod display;
pub mod raster;
pub mod ntp;
pub mod render;
pub mod ring;
pub mod audio_output;
pub mod audio_input;
pub mod battery;
pub mod screen;
pub mod session;
pub mod link;
pub mod machine;
