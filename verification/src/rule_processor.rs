//! The priority by which grammar rules are tried.

use vstd::prelude::*;

verus! {

/// A rule's priority: its precedence, and how often it applies.
#[derive(Debug, Clone, Copy, PartialEq, Eq, Structural)]
pub struct RulePriority {
    pub precedence: u32,
    pub frequency: u64,
}

impl RulePriority {
    /// Whether a rule of this priority is tried before one of `other`:
    /// the higher precedence first, and among equals the higher frequency.
    pub open spec fn before(self, other: RulePriority) -> bool {
        self.precedence > other.precedence || (self.precedence == other.precedence
            && self.frequency > other.frequency)
    }

    /// Whether a rule of this priority is tried before one of `other`.
    pub fn outranks(&self, other: &RulePriority) -> (r: bool)
        ensures
            r == self.before(*other),
    {
        if self.precedence != other.precedence {
            self.precedence > other.precedence
        } else {
            self.frequency > other.frequency
        }
    }

    /// No priority comes before itself, and of two priorities that differ
    /// exactly one comes before the other.
    pub proof fn lemma_strict_order(a: RulePriority, b: RulePriority, c: RulePriority)
        ensures
            !a.before(a),
            a != b ==> (a.before(b) <==> !b.before(a)),
            a.before(b) && b.before(c) ==> a.before(c),
    {
    }
}

} // verus!
