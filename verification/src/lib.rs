//! A persistent, content-addressed record store that detects whether an
//! incoming image has been seen before — exactly or approximately — and
//! counts how often each distinct image reappears.
//!
//! The engine computes a fixed-length perceptual hash of each image
//! (`hashing`), keeps three key-ordered collections plus schema metadata
//! in an embedded store behind trusted wrappers (`backend`), encodes each
//! record in a fixed binary layout that allows flipping its `ignored`
//! flag in place (`record`, `codec`), and classifies every incoming image
//! as new, exact duplicate, or near duplicate (`store`). Every operation
//! carries a contract over the store's mathematical model (`model`),
//! where the engine's laws are proved; `text` holds the pure text
//! decisions around the engine.

pub mod backend;
pub mod codec;
pub mod errors;
pub mod hashing;
pub mod model;
pub mod record;
pub mod store;
pub mod text;
