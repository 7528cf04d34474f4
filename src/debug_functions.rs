use vstd::prelude::*;

verus! {

/// An event counter for debugging, passed to whoever counts instead of
/// living in a process-wide variable.
pub struct DebugCounter {
    value: u64,
}

impl DebugCounter {
    pub closed spec fn value_spec(&self) -> u64 {
        self.value
    }

    pub fn new() -> (r: Self)
        ensures
            r.value_spec() == 0,
    {
        DebugCounter { value: 0 }
    }

    pub fn value(&self) -> (r: u64)
        ensures
            r == self.value_spec(),
    {
        self.value
    }
}

/// Counts one event; the count wraps around past the largest `u64`.
pub fn debug_increase(counter: &mut DebugCounter)
    ensures
        final(counter).value_spec() == (old(counter).value_spec() + 1) % 0x1_0000_0000_0000_0000,
{
    counter.value = counter.value.wrapping_add(1);
}

} // verus!
