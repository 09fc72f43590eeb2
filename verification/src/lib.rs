//! Verified core of the RustAdmin probe tools: the network probe, the AV1 screen
//! benchmark, the debug and desktop-duplication probes and the safety probes.
pub mod bitmap;
pub mod bytes;
pub mod debugprobe;
pub mod dxgi;
pub mod image_laws;
pub mod magnitude;
pub mod netprobe;
pub mod parse;
pub mod probe_option_laws;
pub mod safety;
pub mod screen;
pub mod text;
pub mod text_laws;
pub mod wide;
