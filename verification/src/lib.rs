//! Verified core of the Wright Motor Design Suite.

pub mod crash;
pub mod dynamics;
pub mod editor;
pub mod text;
pub mod expr;
pub mod geom;
pub mod mfg;
pub mod model;
