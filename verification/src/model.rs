//! The resolved model: how parts come to be placed, and what goes wrong on the way.

pub mod chassis;
pub mod errors;
pub mod flatten;
pub mod library;
pub mod mates;
pub mod params;
pub mod placement;
pub mod reach;
pub mod variants;
