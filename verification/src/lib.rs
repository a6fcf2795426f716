//! Verified core of a candle replayer for trade plans.
pub mod admin;
pub mod annotate;
pub mod arm_record;
pub mod attempt_state;
pub mod baseline;
pub mod baseline_laws;
pub mod baseline_render;
pub mod batch;
pub mod binary64;
pub mod brisbane;
pub mod cadence;
pub mod candles;
pub mod decimal;
pub mod detector_marks;
pub mod driver;
pub mod economics;
pub mod exit_laws;
pub mod fill_laws;
pub mod fill_sim;
pub mod fixture;
pub mod float_laws;
pub mod futures_caveats;
pub mod glob;
pub mod hexadecimal;
pub mod market;
pub mod outcome;
pub mod payload;
pub mod report;
pub mod sequences;
pub mod text;
pub mod time;
pub mod warmup;
pub mod window;
