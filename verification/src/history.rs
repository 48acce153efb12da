//! The three-character look-back register over emitted output.
//!
//! Decisions of the scanner ("was the previous emitted character a space?")
//! depend on what was *emitted*, not on the raw input, so the scanner keeps
//! the last three output characters in a small register that can be shifted
//! forward when a character is emitted and backward when one is revised away.

use vstd::prelude::*;

verus! {

/// The last three characters appended to the output, most recent first.
#[derive(Clone, Copy, Debug)]
pub struct History {
    pub c0: char,
    pub c1: char,
    pub c2: char,
}

impl History {
    /// A fresh register, padded with spaces.
    pub fn new() -> (h: History)
        ensures
            h.c0 == ' ',
            h.c1 == ' ',
            h.c2 == ' ',
    {
        History { c0: ' ', c1: ' ', c2: ' ' }
    }

    /// The most recently emitted character.
    pub fn prev(&self) -> (c: char)
        ensures
            c == self.c0,
    {
        self.c0
    }

    /// The character emitted just before [`History::prev`].
    pub fn pre_prev(&self) -> (c: char)
        ensures
            c == self.c1,
    {
        self.c1
    }

    /// Shift a newly emitted character into the register.
    pub fn ppush(&mut self, c: char)
        ensures
            final(self).c0 == c,
            final(self).c1 == old(self).c0,
            final(self).c2 == old(self).c1,
    {
        self.c2 = self.c1;
        self.c1 = self.c0;
        self.c0 = c;
    }

    /// Shift the register back after the last emitted character is revised
    /// away; the vacated slot is padded with a space.
    pub fn ppop(&mut self)
        ensures
            final(self).c0 == old(self).c1,
            final(self).c1 == old(self).c2,
            final(self).c2 == ' ',
    {
        self.c0 = self.c1;
        self.c1 = self.c2;
        self.c2 = ' ';
    }
}

} // verus!
