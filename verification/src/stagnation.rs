//! Noticing that the evolution is stuck. Every generation whose best
//! painting is the one of the generation before uses up one unit of a
//! countdown; a generation that finds the countdown used up forces the
//! population to be mutated afresh and starts a shorter countdown.

use vstd::prelude::*;

verus! {

/// The countdown, and the value it starts from again once it has run out.
#[derive(Clone, Copy, Debug, PartialEq, Eq, Structural)]
pub struct Stagnation {
    pub countdown: u32,
    pub recovery: u32,
}

impl Stagnation {
    /// What a check leads to: the countdown afterwards, and whether a
    /// mutation of the population is due. `unchanged` says that the best
    /// painting is the one of the generation before; progress leaves the
    /// countdown alone.
    pub open spec fn observed(self, unchanged: bool) -> (Stagnation, bool) {
        if !unchanged {
            (self, false)
        } else if self.countdown == 0 {
            (Stagnation { countdown: self.recovery, recovery: self.recovery }, true)
        } else {
            (Stagnation { countdown: (self.countdown - 1) as u32, recovery: self.recovery }, false)
        }
    }

    /// The countdown after so many checks in a row that found the best
    /// painting unchanged.
    pub open spec fn after_unchanged(self, checks: nat) -> Stagnation
        decreases checks,
    {
        if checks == 0 {
            self
        } else {
            self.after_unchanged((checks - 1) as nat).observed(true).0
        }
    }

    /// Checks one generation.
    pub fn observe(&mut self, unchanged: bool) -> (due: bool)
        ensures
            (*final(self), due) == old(self).observed(unchanged),
    {
        if !unchanged {
            false
        } else if self.countdown == 0 {
            self.countdown = self.recovery;
            true
        } else {
            self.countdown = self.countdown - 1;
            false
        }
    }
}

/// A countdown of `d` lasts for `d` unchanged generations: none of their
/// checks asks for a mutation, each uses up one unit, and the check of the
/// next unchanged generation asks for the mutation and starts the countdown
/// again from the recovery value.
pub proof fn lemma_countdown(s: Stagnation, checks: nat)
    requires
        checks <= s.countdown,
    ensures
        s.after_unchanged(checks) == (Stagnation {
            countdown: (s.countdown - checks) as u32,
            recovery: s.recovery,
        }),
        forall|earlier: nat| earlier < checks ==> !(#[trigger] s.after_unchanged(earlier)).observed(true).1,
        checks == s.countdown ==> s.after_unchanged(checks).observed(true) == (
            Stagnation { countdown: s.recovery, recovery: s.recovery },
            true,
        ),
    decreases checks,
{
    if checks > 0 {
        lemma_countdown(s, (checks - 1) as nat);
        assert forall|earlier: nat| earlier < checks implies !(#[trigger] s.after_unchanged(
            earlier,
        )).observed(true).1 by {
            if earlier == checks - 1 {
            }
        }
    }
}

} // verus!
