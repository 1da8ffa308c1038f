//! Extraction of signal activity from a hierarchical waveform trace into a
//! sampling-profile artifact.
//!
//! The crate holds the verified core of the pipeline: a string-interning
//! table obeying the profile format's encoding rules (`string_table`), a
//! single-pass resolver of requested signal names over the waveform's scope
//! hierarchy (`hierarchy`), and the collector/synthesizer that turns
//! value-change events into profile samples (`profile`). Waveform decoding,
//! protocol-buffer encoding, compression and all file handling live outside
//! the library and exchange plain values with it.

pub mod hierarchy;
pub mod profile;
pub mod string_table;
