//! The editing operations behind the application, separated from the user interface that calls
//! them: making a part without writing a file, assembling a vehicle by picking parts and
//! joining their ports.

pub mod part;
pub mod vehicle;
