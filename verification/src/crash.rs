//! The standard crash impacts the screening model is run against.

use vstd::prelude::*;

use crate::text::{contains_text, has_text};

verus! {

/// The standard impacts, and where they come from.
#[derive(Debug, Clone, Copy, PartialEq, Eq, Structural)]
pub enum Standard {
    /// Full width rigid barrier at 56 km/h. ADR 69, the frontal impact rule.
    FullFrontal,
    /// 40 per cent overlap into a deformable barrier at 64 km/h. ADR 73.
    OffsetFrontal,
    /// A pole at 32 km/h, which is the hardest test of a narrow crush zone.
    Pole,
}

/// The name of each impact, as text.
pub open spec fn standard_name(s: Standard) -> Seq<char> {
    match s {
        Standard::FullFrontal => "full width rigid barrier"@,
        Standard::OffsetFrontal => "40 per cent offset deformable barrier"@,
        Standard::Pole => "rigid pole"@,
    }
}

/// Where each impact comes from, as text.
pub open spec fn standard_source(s: Standard) -> Seq<char> {
    match s {
        Standard::FullFrontal => "ADR 69: 56 km/h into a rigid barrier"@,
        Standard::OffsetFrontal => "ADR 73: 64 km/h, 40 per cent overlap"@,
        Standard::Pole => "Not an ADR test; the hardest case for a narrow crush zone"@,
    }
}

impl Standard {
    pub fn name(&self) -> (r: &'static str)
        ensures
            r@ == standard_name(*self),
    {
        match self {
            Standard::FullFrontal => "full width rigid barrier",
            Standard::OffsetFrontal => "40 per cent offset deformable barrier",
            Standard::Pole => "rigid pole",
        }
    }

    pub fn source(&self) -> (r: &'static str)
        ensures
            r@ == standard_source(*self),
    {
        match self {
            Standard::FullFrontal => "ADR 69: 56 km/h into a rigid barrier",
            Standard::OffsetFrontal => "ADR 73: 64 km/h, 40 per cent overlap",
            Standard::Pole => "Not an ADR test; the hardest case for a narrow crush zone",
        }
    }

    /// Every standard impact, in the order the reports list them.
    pub fn all() -> (r: [Standard; 3])
        ensures
            r@ == seq![Standard::FullFrontal, Standard::OffsetFrontal, Standard::Pole],
    {
        [Standard::FullFrontal, Standard::OffsetFrontal, Standard::Pole]
    }
}

/// Does this part run along the vehicle, so that it can crush end on? The chassis rails do.
pub fn is_longitudinal(source_id: &str) -> (r: bool)
    ensures
        r == has_text(source_id@, "rail"@),
{
    contains_text(source_id, "rail")
}

} // verus!
