//! The screen benchmark: corpora, colour reduction, luma maps, quality and the
//! command lines.
pub mod active_map;
pub mod active_map_laws;
pub mod corpus;
pub mod corpus_laws;
pub mod number_laws;
pub mod options;
pub mod options_laws;
pub mod quantize;
pub mod quantize_laws;
pub mod render;
pub mod render_laws;
pub mod stats;
pub mod stats_laws;
pub mod yuv;
pub mod yuv_laws;
