//! A cursor over the characters of a line, with one character of lookahead.

use vstd::prelude::*;
use vstd::std_specs::iter::IteratorSpec;

verus! {

broadcast use vstd::string::group_string_axioms;

/// The characters of a line and a position among them.
///
/// [`Cursor::peek`] looks at the character at the position without
/// consuming it; [`Cursor::advance`] consumes it.
pub struct Cursor {
    chars: Vec<char>,
    position: usize,
}

impl View for Cursor {
    type V = Seq<char>;

    /// The characters that have not been consumed, the next one first.
    closed spec fn view(&self) -> Seq<char> {
        self.chars@.skip(self.position as int)
    }
}

impl Cursor {
    #[verifier::type_invariant]
    spec fn in_bounds(self) -> bool {
        self.position <= self.chars.len()
    }

    /// A cursor at the first character of `line`.
    pub fn new(line: &str) -> (cursor: Self)
        ensures
            cursor@ == line@,
    {
        let mut chars: Vec<char> = Vec::new();
        let mut source = line.chars();
        loop
            invariant
                chars@ + source.remaining() == line@,
                source.decrease() is Some,
            ensures
                chars@ == line@,
            decreases source.decrease()->0,
        {
            match source.next() {
                Some(c) => {
                    chars.push(c);
                },
                None => {
                    break ;
                },
            }
        }
        Cursor { chars, position: 0 }
    }

    /// The next character, which stays in place; `None` at the end of the line.
    pub fn peek(&self) -> (next: Option<char>)
        ensures
            next == (if self@.len() > 0 {
                Some(self@[0])
            } else {
                None
            }),
    {
        proof {
            use_type_invariant(self);
        }
        if self.position < self.chars.len() {
            Some(self.chars[self.position])
        } else {
            None
        }
    }

    /// Consumes the next character and returns it; `None` at the end of the
    /// line, where nothing changes.
    pub fn advance(&mut self) -> (next: Option<char>)
        ensures
            next == (if old(self)@.len() > 0 {
                Some(old(self)@[0])
            } else {
                None
            }),
            final(self)@ == (if old(self)@.len() > 0 {
                old(self)@.skip(1)
            } else {
                old(self)@
            }),
    {
        proof {
            use_type_invariant(&*self);
        }
        if self.position < self.chars.len() {
            let c = self.chars[self.position];
            self.position = self.position + 1;
            Some(c)
        } else {
            None
        }
    }
}

} // verus!
