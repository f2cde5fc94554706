//! Client-side logic of a real-time voice dialogue service: the binary frame
//! protocol spoken over the WebSocket, the reassembly of received frames, the
//! request payloads, the configuration, and the PCM sample handling used by the
//! microphone and the speaker.

pub mod text;
pub mod wire;
pub mod protocol;
pub mod codec_laws;
pub mod config;
pub mod request_payloads;
pub mod sound;
pub mod net_client;
pub mod stream_laws;
pub mod microphone;
pub mod rt_service;
