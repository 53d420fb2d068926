//! A relay that republishes a text-generation backend's newline-delimited
//! stream as an ordered sequence of client events.
pub mod lines;
pub mod events;
pub mod accumulate;
pub mod relay;
pub mod prompt;
