//! The launch description and what is derived from it.

pub mod launch;
pub mod manifest;
pub mod metadata;
