//! A live MIDI looper engine: a quantized time model, immutable recorded
//! takes, and the state machine that records, overdubs and replays them.

pub mod quant;
pub mod measure;
pub mod midi;
pub mod arith;
pub mod sample;
pub mod looper;
