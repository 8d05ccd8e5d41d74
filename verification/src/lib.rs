//! Verified core of a real-time audio visualiser: the single-slot capture
//! hand-off, the audio-driven latent walk, the heat strip and the canvas of
//! packed pixels, and the walk over the mesh. Devices, the generative model
//! and all arithmetic on magnitudes are the caller's.

pub mod pixel;
pub mod rotation;
pub mod permutation;
pub mod tiles;
pub mod heat;
pub mod drift;
pub mod capture;
pub mod mesh;
