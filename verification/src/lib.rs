//! Core of a push-to-talk dictation coordinator.
//!
//! A configured hotkey press opens a recording session, its release closes
//! the session; the captured audio is downmixed, encoded as 16-bit PCM WAV
//! and handed to a transcription service, whose answer is injected as text.
//! This crate holds the verified heart of that flow: the session state
//! machine, the encoder, and the configuration rules.  Device, network and
//! GUI plumbing live outside and talk to this crate through plain values.

pub mod application;
pub mod audio;
pub mod groq_client;
pub mod hotkey_listener;
pub mod settings;
pub mod text;
