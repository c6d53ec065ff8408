//! Small pieces of the platform loop: what a game step asks of the platform,
//! and a filter that passes a value on only when it changes.

use vstd::prelude::*;
use vstd::std_specs::cmp::PartialEqSpec;

verus! {

/// What a game step asks of the platform: go on with the step's result, or exit.
pub enum PlatformStepResult<StepResult> {
    Continue(StepResult),
    Exit,
}

/// Remembers the last value seen and reports a value only when it differs
/// from that one.
pub struct ValueOnChange<T> {
    last: Option<T>,
}

impl<T> ValueOnChange<T> {
    /// The last value seen, if any.
    pub closed spec fn last(&self) -> Option<T> {
        self.last
    }
}

impl<T: Copy + PartialEq> ValueOnChange<T> {
    /// A filter that has seen nothing yet.
    pub fn new() -> (r: ValueOnChange<T>)
        ensures
            r.last().is_none(),
    {
        ValueOnChange { last: None }
    }

    /// `Some(value)` when `value` differs from the last value seen (or none
    /// was seen), which it then remembers; `None` when it is the same.
    pub fn value(&mut self, value: T) -> (r: Option<T>)
        requires
            T::obeys_eq_spec(),
        ensures
            ({
                let same = old(self).last() matches Some(v) && v.eq_spec(&value);
                &&& same ==> r.is_none() && final(self).last() == old(self).last()
                &&& !same ==> r == Some(value) && final(self).last() == Some(value)
            }),
    {
        let changed = match self.last {
            Some(v) => !(v == value),
            None => true,
        };
        if changed {
            self.last = Some(value);
            Some(value)
        } else {
            None
        }
    }
}

} // verus!
