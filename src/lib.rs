//! Deterministic core of a procedural audiovisual demo: a seeded linear
//! congruential generator, the note schedule of the soundtrack, the
//! rejection sampler that places spheres over land, the camera sequencer's
//! control state machine and the sphere script's interpreter loop.

pub mod random;
pub mod util;
pub mod intro;
pub mod music;
pub mod sequencer;
pub mod placement;
pub mod script;
