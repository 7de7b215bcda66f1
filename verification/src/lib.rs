//! Resolution of a platform-conditional launch description into a concrete
//! plan: the launch arguments that apply to an environment, and the
//! artifacts to download.

pub mod minecraft;
pub mod text;
