//! Verified streaming core of an audio player and spectrum visualiser.
//!
//! The playback path turns decoded PCM into blocks at the device rate
//! ([`stream`], [`rate`]) and drains them inside the output callback
//! ([`playback`]). The analysis path collects captured samples into fixed
//! windows ([`capture`]), shapes the magnitude spectrum of each window
//! ([`spectrum`]) and animates the bars that show it ([`render`]).
//! The two threads of each path meet only in the channels of [`handoff`].

pub mod capture;
pub mod handoff;
pub mod playback;
pub mod rate;
pub mod render;
pub mod spectrum;
pub mod stream;
pub mod timecode;

