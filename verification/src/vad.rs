use vstd::prelude::*;

verus! {

/// Voice activity detector. It carries no state.
pub struct Vad {}

impl Default for Vad {
    fn default() -> (vad: Self)
        ensures
            vad == (Vad {  }),
    {
        Vad {  }
    }
}

impl Vad {
    /// A detector.
    pub fn new() -> (vad: Self)
        ensures
            vad == (Vad {  }),
    {
        Vad::default()
    }
}

} // verus!
