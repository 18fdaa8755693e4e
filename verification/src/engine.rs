//! The attention engine and its one parameter.

use vstd::prelude::*;

verus! {

/// Fuses named signals into one value. The engine holds the softmax
/// temperature, as a binary64 pattern, and never changes it.
#[derive(Clone, Copy, Debug)]
pub struct RustAttentionEngine {
    temperature: u64,
}

impl RustAttentionEngine {
    /// The temperature that the engine was made with.
    pub closed spec fn temperature(&self) -> u64 {
        self.temperature
    }

    /// An engine with the given temperature. Any pattern is taken as it is:
    /// with a temperature that is zero, negative or not a number the stages
    /// still run, and hand on whatever the arithmetic makes of it.
    pub fn new(temperature: u64) -> (engine: Self)
        ensures
            engine.temperature() == temperature,
    {
        RustAttentionEngine { temperature }
    }

    /// The temperature, as the pattern that `new` was given.
    pub fn temperature_bits(&self) -> (r: u64)
        ensures
            r == self.temperature(),
    {
        self.temperature
    }
}

} // verus!
