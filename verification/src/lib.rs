//! Core of a low-latency PCM audio streaming pipeline.
//!
//! A producer decodes little-endian 16-bit mono samples from a byte stream
//! and appends them to a shared FIFO buffer; a consumer drains the buffer
//! one sample at a time, applying a linear fade-in to the first samples it
//! emits. A startup gate defers playback until enough samples are buffered
//! or the producer has already finished.

pub mod buffer;
pub mod decode;
pub mod gate;
pub mod source;
pub mod urlencode;
