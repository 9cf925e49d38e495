//! Video preview library: sampled file fingerprints, output-path derivation,
//! the artifact generation pipeline's decisions, the cache resolution steps and
//! the progress stream's state machine.

pub mod model;
pub mod thumbnail;
pub mod fhash;
pub mod handler;
pub mod notifier;
pub mod dao;
pub mod es;
