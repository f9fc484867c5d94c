//! Extraction of the audio tracks that rhythm-game beatmaps refer to: the
//! text rules (which lines of a beatmap count, which file names are safe) and
//! the decisions of one extraction, with machine-checked contracts.

pub mod beatmap;
pub mod extract;
pub mod paths;
pub mod sanitize;
pub mod text;
