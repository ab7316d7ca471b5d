//! A log shipper for Seq: events are buffered in memory, drained in bounded
//! batches, encoded one compact JSON object per event and handed to a
//! transport as a description of one HTTP POST.
//!
//! Everything here is plain computation. Locks, timers and the HTTP client
//! belong to the program that embeds the library.

pub mod buffer;
pub mod connection_string;
pub mod contracts;
pub mod event;
pub mod sdk;
pub mod seq_writer;
pub mod text;
