//! Similar songs: from the name of a song to the songs of a catalog that
//! sound like it, as a summary and as a graph description.
//!
//! A query looks the name up in the catalog ([`resolver`]), lets the caller
//! pick among several matches ([`selection`]), finds the tracks whose audio
//! features lie within tolerances of the reference track ([`similarity`]),
//! builds the star around the reference track ([`subgraph`]) and writes it
//! down ([`export`]); [`pipeline`] strings the steps together. Audio
//! features are fixed-point numbers ([`fixed`]), so every step is exact.

pub mod config;
pub mod export;
pub mod fixed;
pub mod pipeline;
pub mod ranking;
pub mod render;
pub mod resolver;
pub mod selection;
pub mod similarity;
pub mod subgraph;
pub mod text;
pub mod track;
