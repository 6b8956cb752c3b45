//! A minimal byte walker over the source text: consume one byte at a time,
//! look ahead up to three bytes without consuming, and report how much has
//! been consumed. All offsets are byte offsets; the scanner built on top is
//! responsible for keeping multi-byte UTF-8 sequences whole.

use vstd::prelude::*;

verus! {

/// Lookahead past the end of input returns this defined sentinel instead of
/// failing.
pub const SENTINEL: u8 = 0;

pub struct Cursor<'a> {
    pub input: &'a [u8],
    pub pos: usize,
}

impl<'a> Cursor<'a> {
    /// The positions already consumed stay inside the input.
    pub open spec fn wf(self) -> bool {
        self.pos <= self.input@.len()
    }

    pub fn new(input_slice: &'a [u8]) -> (c: Cursor<'a>)
        ensures
            c.wf(),
            c.input@ == input_slice@,
            c.pos == 0,
    {
        Cursor { input: input_slice, pos: 0 }
    }

    /// How many bytes have been consumed so far.
    pub fn length_consumed(&self) -> (n: usize)
        ensures
            n == self.pos,
    {
        self.pos
    }

    /// Consume one byte and return it, or return none at end of input.
    pub fn bump(&mut self) -> (r: Option<u8>)
        requires
            old(self).wf(),
        ensures
            final(self).wf(),
            final(self).input@ == old(self).input@,
            old(self).pos < old(self).input@.len() ==> r == Some(
                old(self).input@[old(self).pos as int],
            ) && final(self).pos == old(self).pos + 1,
            old(self).pos >= old(self).input@.len() ==> r is None && final(self).pos == old(
                self,
            ).pos,
    {
        if self.pos < self.input.len() {
            let b = self.input[self.pos];
            self.pos = self.pos + 1;
            Some(b)
        } else {
            None
        }
    }

    /// Consume one byte and return it, with the sentinel at end of input.
    pub fn next_char_in_token(&mut self) -> (r: u8)
        requires
            old(self).wf(),
        ensures
            final(self).wf(),
            final(self).input@ == old(self).input@,
            old(self).pos < old(self).input@.len() ==> r == old(self).input@[old(self).pos as int]
                && final(self).pos == old(self).pos + 1,
            old(self).pos >= old(self).input@.len() ==> r == SENTINEL && final(self).pos == old(
                self,
            ).pos,
    {
        match self.bump() {
            Some(b) => b,
            None => SENTINEL,
        }
    }

    /// True when nothing is left; note that, like the character iterator it
    /// replaces, this consumes the byte it inspects.
    pub fn eof(&mut self) -> (r: bool)
        requires
            old(self).wf(),
        ensures
            final(self).wf(),
            final(self).input@ == old(self).input@,
            r == (old(self).pos >= old(self).input@.len()),
            old(self).pos < old(self).input@.len() ==> final(self).pos == old(self).pos + 1,
            old(self).pos >= old(self).input@.len() ==> final(self).pos == old(self).pos,
    {
        match self.bump() {
            Some(_) => false,
            None => true,
        }
    }

    /// The byte at the current offset, without consuming it.
    pub fn current(&self) -> (r: Option<u8>)
        requires
            self.wf(),
        ensures
            self.pos < self.input@.len() ==> r == Some(self.input@[self.pos as int]),
            self.pos >= self.input@.len() ==> r is None,
    {
        if self.pos < self.input.len() {
            Some(self.input[self.pos])
        } else {
            None
        }
    }

    /// Consume bytes as long as the predicate holds of the next one.
    pub fn eat_while<F: Fn(u8) -> bool>(&mut self, f: F)
        requires
            old(self).wf(),
            forall|c: u8| #[trigger] f.requires((c,)),
        ensures
            final(self).wf(),
            final(self).input@ == old(self).input@,
            old(self).pos <= final(self).pos,
            forall|i: int|
                old(self).pos <= i < final(self).pos ==> f.ensures(
                    (#[trigger] old(self).input@[i],),
                    true,
                ),
            final(self).pos < final(self).input@.len() ==> f.ensures(
                (final(self).input@[final(self).pos as int],),
                false,
            ),
    {
        loop
            invariant
                self.wf(),
                self.input@ == old(self).input@,
                old(self).pos <= self.pos,
                forall|i: int|
                    old(self).pos <= i < self.pos ==> f.ensures((#[trigger] self.input@[i],), true),
                forall|c: u8| #[trigger] f.requires((c,)),
            ensures
                old(self).pos <= self.pos,
                forall|i: int|
                    old(self).pos <= i < self.pos ==> f.ensures((#[trigger] self.input@[i],), true),
                self.pos < self.input@.len() ==> f.ensures(
                    (self.input@[self.pos as int],),
                    false,
                ),
            decreases self.input@.len() - self.pos,
        {
            match self.current() {
                Some(c) => {
                    if f(c) {
                        self.bump();
                    } else {
                        break ;
                    }
                },
                None => {
                    break ;
                },
            }
        }
    }

    /// Look ahead zero bytes past the current offset.
    pub fn first(&self) -> (r: u8)
        requires
            self.wf(),
        ensures
            self.pos < self.input@.len() ==> r == self.input@[self.pos as int],
            self.pos >= self.input@.len() ==> r == SENTINEL,
    {
        if self.pos < self.input.len() {
            self.input[self.pos]
        } else {
            SENTINEL
        }
    }

    /// Look ahead one byte past the current offset.
    pub fn second(&self) -> (r: u8)
        requires
            self.wf(),
        ensures
            self.pos + 1 < self.input@.len() ==> r == self.input@[self.pos + 1],
            self.pos + 1 >= self.input@.len() ==> r == SENTINEL,
    {
        if self.input.len() - self.pos > 1 {
            self.input[self.pos + 1]
        } else {
            SENTINEL
        }
    }

    /// Look ahead two bytes past the current offset.
    pub fn third(&self) -> (r: u8)
        requires
            self.wf(),
        ensures
            self.pos + 2 < self.input@.len() ==> r == self.input@[self.pos + 2],
            self.pos + 2 >= self.input@.len() ==> r == SENTINEL,
    {
        if self.input.len() - self.pos > 2 {
            self.input[self.pos + 2]
        } else {
            SENTINEL
        }
    }
}

} // verus!
