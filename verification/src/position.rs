//! Spans: half-open ranges of byte offsets into a source that is kept
//! elsewhere. A span whose end is 0 is unset and stands for the empty text.

use crate::text::{is_text_span, text_between};
use vstd::prelude::*;
use vstd::string::*;

verus! {

/// A span in specifications: the bytes `[from, to)` of some source.
pub struct Span {
    pub from: int,
    pub to: int,
}

impl Span {
    /// The span that covers nothing and marks a missing value.
    pub open spec fn unset() -> Span {
        Span { from: 0, to: 0 }
    }

    /// Whether the span marks a missing value.
    pub open spec fn is_unset(self) -> bool {
        self.to == 0
    }

    /// Whether the span is unset or can be cut out of `s` as text.
    pub open spec fn readable_in(self, s: Seq<u8>) -> bool {
        self.to != 0 ==> is_text_span(s, self.from, self.to)
    }

    /// The bytes of `s` that the span covers; none where it is unset.
    pub open spec fn of(self, s: Seq<u8>) -> Seq<u8> {
        if self.to == 0 {
            Seq::empty()
        } else {
            s.subrange(self.from, self.to)
        }
    }
}

/// A span of a source string, as two offsets.
#[derive(Clone, Copy, Debug)]
pub struct Position {
    pub from: usize,
    pub to: usize,
}

impl View for Position {
    type V = Span;

    open spec fn view(&self) -> Span {
        Span { from: self.from as int, to: self.to as int }
    }
}

impl Position {
    /// The unset position.
    pub fn unset() -> (r: Position)
        ensures
            r@ == Span::unset(),
    {
        Position { from: 0, to: 0 }
    }

    /// The text of `src` that the position covers; the empty text where the
    /// position is unset.
    pub fn get_str<'s>(&self, src: &'s str) -> (r: &'s str)
        requires
            self@.readable_in(src.spec_bytes()),
        ensures
            r.spec_bytes() == self@.of(src.spec_bytes()),
    {
        if self.to == 0 {
            let empty = "";
            proof {
                reveal_strlit("");
                assert(empty@ =~= Seq::<char>::empty());
                assert(empty.spec_bytes() =~= Seq::<u8>::empty());
            }
            return empty;
        }
        text_between(src, self.from, self.to)
    }
}

} // verus!
