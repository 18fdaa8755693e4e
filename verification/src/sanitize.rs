//! Repair of raw signal values before they are scored.

use crate::binary64::{clamp_unit, sanitized};
use crate::signal_map::SignalMap;
use vstd::prelude::*;

verus! {

/// `signals` with every value sanitized: same names, same order.
pub open spec fn normalized(signals: Seq<(Seq<char>, u64)>) -> Seq<(Seq<char>, u64)> {
    Seq::new(signals.len(), |i: int| (signals[i].0, sanitized(signals[i].1)))
}

/// Repairs every value and confines it to `[-1, 1]`: NaN and the infinities
/// become `+0.0`, a finite value outside the interval becomes the nearer
/// bound, every other value is kept. Succeeds on every input.
pub fn normalize_signals(signals: &SignalMap<u64>) -> (r: SignalMap<u64>)
    ensures
        r@ == normalized(signals@),
{
    let n: usize = signals.len();
    let mut repaired: Vec<u64> = Vec::new();
    let mut i: usize = 0;
    while i < n
        invariant
            i <= n == signals@.len(),
            repaired@.len() == i,
            forall|k: int|
                #![trigger repaired@[k]]
                0 <= k < i ==> repaired@[k] == sanitized(signals@[k].1),
        decreases n - i,
    {
        repaired.push(clamp_unit(signals.value(i)));
        i += 1;
    }
    let r: SignalMap<u64> = SignalMap::relabel(signals, repaired);
    assert(r@ =~= normalized(signals@));
    r
}

} // verus!
