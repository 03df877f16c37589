//! Small counting loops whose results are pinned exactly: the counter loop
//! that stops at a threshold and hands back its double, and the countdown
//! that calls out every value from its start down to one.

use vstd::prelude::*;

verus! {

/// Count up from zero, stop on reaching `stop`, and hand back its double.
pub fn count_then_double(stop: u32) -> (r: u32)
    requires
        1 <= stop,
        stop <= u32::MAX / 2,
    ensures
        r == 2 * stop,
{
    let mut counter: u32 = 0;
    loop
        invariant_except_break
            counter < stop,
        ensures
            counter == stop,
        decreases stop - counter,
    {
        counter = counter + 1;
        if counter == stop {
            break;
        }
    }
    counter * 2
}

/// The values a countdown calls out: `start`, `start - 1`, ..., `1`.
pub fn countdown_values(start: u32) -> (r: Vec<u32>)
    ensures
        r@.len() == start as int,
        forall|i: int| 0 <= i < start as int ==> r@[i] == start - i,
{
    let mut v: Vec<u32> = Vec::new();
    let mut number: u32 = start;
    while number != 0
        invariant
            number <= start,
            v@.len() == start - number,
            forall|i: int| 0 <= i < v@.len() ==> v@[i] == start - i,
        decreases number,
    {
        v.push(number);
        number = number - 1;
    }
    v
}

} // verus!
