//! Automatic gain control: the rule that locks the gain.

use vstd::prelude::*;

verus! {

/// Whether the gain is locked after one sample above the squelch level. A locked gain stays
/// locked. With auto-lock on, the gain locks once the output has crossed the reference power:
/// an input above the reference whose output falls below it, or an input at or below the
/// reference whose output rises above it.
pub fn agc_gain_lock(
    auto_lock: bool,
    gain_lock: bool,
    input_above_reference: bool,
    output_below_reference: bool,
    output_above_reference: bool,
) -> (locked: bool)
    ensures
        locked == (gain_lock || (auto_lock && if input_above_reference {
            output_below_reference
        } else {
            output_above_reference
        })),
{
    let mut locked = gain_lock;
    if auto_lock {
        if input_above_reference {
            if output_below_reference {
                locked = true;
            }
        } else if output_above_reference {
            locked = true;
        }
    }
    locked
}

} // verus!
