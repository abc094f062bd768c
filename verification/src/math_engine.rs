//! Stack-to-pot zones.

use vstd::prelude::*;

verus! {

/// How deep the stacks are relative to the pot.
#[derive(Debug, Clone, Copy, PartialEq, Eq, Structural)]
pub enum SprZone {
    Low,
    Medium,
    High,
}

impl SprZone {
    pub open spec fn label(self) -> Seq<char> {
        match self {
            SprZone::Low => "low"@,
            SprZone::Medium => "medium"@,
            SprZone::High => "high"@,
        }
    }

    pub open spec fn advice(self) -> Seq<char> {
        match self {
            SprZone::Low => "Commit with top pair+. All-in pressure is standard."@,
            SprZone::Medium => "Two pair+ for stacking. One pair hands play cautiously."@,
            SprZone::High => "Need very strong hands to stack off. Implied odds matter most."@,
        }
    }

    /// The lower-case name of the zone.
    pub fn as_str(&self) -> (s: &'static str)
        ensures
            s@ == self.label(),
    {
        match self {
            SprZone::Low => "low",
            SprZone::Medium => "medium",
            SprZone::High => "high",
        }
    }

    /// How to play a pot in this zone.
    pub fn guidance(&self) -> (s: &'static str)
        ensures
            s@ == self.advice(),
    {
        match self {
            SprZone::Low => "Commit with top pair+. All-in pressure is standard.",
            SprZone::Medium => "Two pair+ for stacking. One pair hands play cautiously.",
            SprZone::High => "Need very strong hands to stack off. Implied odds matter most.",
        }
    }
}

} // verus!
