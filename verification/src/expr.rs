//! The WMDS expression language.
//!
//! A small, pure language used in primitive parameters, port frames, rule checks and cost
//! models. It has quantities with units, booleans, strings, tuples, lists and lambdas; no loops,
//! no side effects, no I/O.
//!
//! ```text
//! length = 2 * track_width - 120 mm
//! rate   = if spring.kind == "coil" then spring.k else 0 N/mm
//! ok     = headlamp.centre.z >= 500 mm and headlamp.centre.z <= 1200 mm
//! at     = (-span/2, 0 mm, 0 mm)
//! all(lamps, l -> l.height > 500 mm)
//! ```

pub mod ast;
pub mod error;
pub mod lexer;
pub mod parser;
