//! Where each number a simulation runs on came from.
//!
//! The simulation itself is floating point work done by the application; a result carries the
//! authority of its weakest input, so every input records its source.

use vstd::prelude::*;

use crate::text::{contains_text, has_text, lemma_split_nonempty, same_text, split, split_by, Sep};

verus! {

/// Where a number came from.
#[derive(Debug, Clone, Copy, PartialEq, Eq)]
pub enum Source {
    /// Measured off the model.
    Model,
    /// Not in the model, so a stated default was used.
    Assumed(&'static str),
}

/// The category of a part: its source id up to the first `/`.
pub open spec fn category(source_id: Seq<char>) -> Seq<char> {
    split(source_id, Sep::Char('/'))[0]
}

/// Does this part move with the wheels, so that its mass is unsprung? Wheels, brakes and
/// uprights do, which is why parts declare a category.
pub fn is_unsprung(source_id: &str) -> (r: bool)
    ensures
        r == (category(source_id@) == "wheels"@ || category(source_id@) == "braking"@ || has_text(
            source_id@,
            "upright"@,
        )),
{
    let pieces = split_by(source_id, Sep::Char('/'));
    proof {
        lemma_split_nonempty(source_id@, Sep::Char('/'));
    }
    let c = pieces[0].as_str();
    same_text(c, "wheels") || same_text(c, "braking") || contains_text(source_id, "upright")
}

} // verus!
