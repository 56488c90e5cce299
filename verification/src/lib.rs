//! Voice-conversion models: vocoders, a speaker encoder, a length regulator, the signal processing
//! around them, and what a program that fetches their checkpoints decides.

pub mod agreement;
pub mod batch;
pub mod bigvgan;
pub mod calls;
pub mod campplus;
pub mod checkpoint;
pub mod commands;
pub mod error;
pub mod exact;
pub mod fbank;
pub mod fetch;
pub mod formulas;
pub mod framing;
pub mod generators;
pub mod graph;
pub mod inverse;
pub mod layers;
pub mod mel;
pub mod naming;
pub mod nearness;
pub mod presence;
pub mod regulator;
pub mod running;
pub mod signal;
pub mod single;
pub mod speakers;
pub mod spectra;
pub mod stretching;
pub mod tensor;
pub mod text;
pub mod utterances;
pub mod values;
pub mod vocos;
pub mod waveforms;
