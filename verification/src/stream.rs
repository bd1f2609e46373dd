//! Sources of input text, delivered as whole strings.

use vstd::prelude::*;

verus! {

/// A source of text that hands out its content piece by piece.
pub trait Stream {
    /// The pieces that have not been handed out yet, first to last.
    spec fn pending(&self) -> Seq<Seq<char>>;

    /// Takes the next piece out of the stream, or reports `None` once nothing is left.
    fn next(&mut self) -> (piece: Option<String>)
        ensures
            match piece {
                Some(text) => {
                    &&& old(self).pending().len() > 0
                    &&& text@ == old(self).pending().first()
                    &&& final(self).pending() == old(self).pending().drop_first()
                },
                None => old(self).pending().len() == 0 && final(self).pending().len() == 0,
            },
    ;
}

/// A stream of exactly one piece: the string it was made from.
#[derive(Debug)]
pub struct BasicStream {
    cur: Option<String>,
}

impl BasicStream {
    /// A stream whose only piece is `input`.
    pub fn new_with_string(input: String) -> (stream: BasicStream)
        ensures
            stream.pending() == seq![input@],
    {
        BasicStream { cur: Some(input) }
    }
}

impl Stream for BasicStream {
    closed spec fn pending(&self) -> Seq<Seq<char>> {
        match self.cur {
            Some(text) => seq![text@],
            None => Seq::empty(),
        }
    }

    fn next(&mut self) -> (piece: Option<String>) {
        self.cur.take()
    }
}

} // verus!
