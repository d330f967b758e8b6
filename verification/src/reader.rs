//! A buffered character source for an interactive front end.  The stepping
//! over the buffer is verified; the host refills the buffer from its input
//! when the source reports exhaustion.

use vstd::prelude::*;

verus! {

broadcast use vstd::std_specs::vec::group_vec_axioms, vstd::seq::group_seq_axioms;

/// A line buffer stepped one character at a time; the host refills it from
/// standard input whenever it runs out.
pub struct StdinIterator {
    pub buffer: Vec<char>,
    pub index: usize,
}

impl StdinIterator {
    /// A fresh, empty source.
    pub fn new() -> (r: StdinIterator)
        ensures
            r.buffer@ =~= Seq::<char>::empty(),
            r.index == 0,
    {
        StdinIterator { buffer: Vec::new(), index: 0 }
    }

    /// The next buffered character, stepping past it; exhaustion reports
    /// nothing and leaves the source unchanged, so the host can refill it.
    pub fn next(&mut self) -> (r: Option<char>)
        ensures
            old(self).index < old(self).buffer@.len() ==> (r == Some(
                old(self).buffer@[old(self).index as int],
            ) && final(self).buffer@ == old(self).buffer@ && final(self).index == old(self).index
                + 1),
            old(self).index >= old(self).buffer@.len() ==> (r is None && *final(self)
                == *old(self)),
    {
        if self.index < self.buffer.len() {
            let c = self.buffer[self.index];
            self.index = self.index + 1;
            Some(c)
        } else {
            None
        }
    }

    /// Replaces the buffer with a fresh line and rewinds.
    pub fn refill(&mut self, line: &str)
        ensures
            final(self).buffer@ == line@,
            final(self).index == 0,
    {
        self.buffer = crate::tokenizer::chars_of(line);
        self.index = 0;
    }
}

} // verus!
