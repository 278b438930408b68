//! The generations whose best painting is saved on the way.

use vstd::prelude::*;

verus! {

/// Which generations are saved: those of a list, and every `step`-th one. A
/// step of zero names no generation.
#[derive(Debug)]
pub struct Checkpoints {
    pub save_generation: Vec<usize>,
    pub save_generation_step: usize,
}

/// Generation `generation` is saved.
pub open spec fn saved(list: Seq<usize>, step: nat, generation: nat) -> bool {
    list.contains(generation as usize) || (step > 0 && generation % step == 0)
}

impl Checkpoints {
    /// Whether the best painting of generation `generation` is saved.
    pub fn is_due(&self, generation: usize) -> (due: bool)
        ensures
            due == saved(self.save_generation@, self.save_generation_step as nat, generation as nat),
    {
        if self.save_generation_step > 0 && generation % self.save_generation_step == 0 {
            return true;
        }
        let mut i: usize = 0;
        while i < self.save_generation.len()
            invariant
                i <= self.save_generation.len(),
                forall|k: int| 0 <= k < i ==> self.save_generation@[k] != generation,
            decreases self.save_generation.len() - i,
        {
            if self.save_generation[i] == generation {
                return true;
            }
            i += 1;
        }
        false
    }
}

} // verus!
