//! The lines that the to-do list has to say. They are collected here and
//! shown by whoever owns the terminal.

use vstd::prelude::*;

verus! {

/// Lines of output, in the order in which they were written.
#[derive(Clone, Debug, PartialEq, Eq)]
pub struct Console {
    pub lines: Vec<String>,
}

impl View for Console {
    type V = Seq<Seq<char>>;

    open spec fn view(&self) -> Seq<Seq<char>> {
        self.lines.deep_view()
    }
}

impl Console {
    /// A console on which nothing was written yet.
    pub fn new() -> (console: Console)
        ensures
            console@ == Seq::<Seq<char>>::empty(),
    {
        Console { lines: Vec::new() }
    }

    /// Writes one more line.
    pub fn emit(&mut self, line: String)
        ensures
            final(self)@ == old(self)@.push(line@),
    {
        self.lines.push(line);
        assert(self@ =~= old(self)@.push(line@));
    }
}

} // verus!
