//! The clicky counter: the one stateful widget the client drives after
//! hydration.  Each button press increments the displayed value by one; no
//! network traffic is involved.

use vstd::prelude::*;

use crate::view::{digits, spec_digits};

verus! {

/// The counter's client-side state.
pub struct Counter {
    value: usize,
}

impl View for Counter {
    type V = nat;

    closed spec fn view(&self) -> nat {
        self.value as nat
    }
}

impl Counter {
    /// A fresh counter displays zero.
    pub fn new() -> (c: Counter)
        ensures
            c@ == 0,
    {
        Counter { value: 0 }
    }

    /// One button press: the displayed value goes up by one.
    pub fn click(&mut self)
        requires
            old(self)@ < usize::MAX,
        ensures
            final(self)@ == old(self)@ + 1,
    {
        self.value = self.value + 1;
    }

    /// The displayed value.
    pub fn current(&self) -> (v: usize)
        ensures
            v == self@,
    {
        self.value
    }

    /// The value as the widget displays it.
    pub fn display(&self) -> (s: String)
        ensures
            s@ == spec_digits(self@),
    {
        digits(self.value)
    }
}

} // verus!
