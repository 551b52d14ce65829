//! A virtual musical keyboard: key events are coalesced into debounce
//! windows, resolved to notes, rendered to sample buffers, mixed, and fed
//! into a bounded pool of output stream queues that hardware callbacks
//! drain on their own cadence.
//!
//! Samples are modelled as raw PCM amplitudes (`i64`); the hardware edge
//! normalises them to the device's own sample format.

pub mod buffer_que_manager;
pub mod input_handler;
pub mod mixer;
pub mod music_entities;
pub mod note_generator;
pub mod playback;
