//! The tokenizer: a forward-only cursor over the bytes of a parameter list
//! that hands out one pair of key and value at a time.

use crate::attribute_value::{AttributeValue, ValueModel};
use crate::bytes::{
    is_params_separator, scan, scan_from, Stop, CLOSE_PAREN, DOUBLE_QUOTE, SINGLE_QUOTE,
};
use crate::grammar::{
    entries_from, is_text_entry, is_well_shaped, lemma_entries_unfold, lemma_read_entry, pair_of,
    pairs, text_pairs, value_end, Entry,
};
use crate::position::Position;
use crate::text::utf8_text;
use vstd::prelude::*;
use vstd::slice::slice_subrange;
use vstd::string::*;

verus! {

/// What the search for a value came upon.
#[derive(Clone, Copy, Debug)]
pub enum TokenResult {
    /// The first byte of a value.
    Found,
    /// The end of the list: the key is a flag and the last entry.
    Eol,
    /// A byte that no token can start with.
    InvalidToken(u8),
    /// A separator: the key is a flag.
    NoValue,
}

impl TokenResult {
    /// Whether the list ended.
    pub fn is_end_of_line(&self) -> (r: bool)
        ensures
            r == (*self is Eol),
    {
        match self {
            TokenResult::Eol => true,
            _ => false,
        }
    }

    /// Whether a separator stood where the value would.
    pub fn is_none(&self) -> (r: bool)
        ensures
            r == (*self is NoValue),
    {
        match self {
            TokenResult::NoValue => true,
            _ => false,
        }
    }
}

/// The pairs that a vector of keys and values stands for.
pub open spec fn pairs_view(items: Seq<(&str, AttributeValue<'_>)>) -> Seq<(Seq<u8>, ValueModel)> {
    Seq::new(items.len(), |i: int| (items[i].0.spec_bytes(), items[i].1@))
}

/// A cursor over a parameter list. It only moves forward; to read a list
/// again, make a new one.
pub struct AttrParamsParser<'s> {
    line: &'s [u8],
    found_eol: bool,
    key_start: usize,
    key_end: usize,
    value_start: usize,
    value_end: usize,
}

impl<'s> AttrParamsParser<'s> {
    #[verifier::type_invariant]
    spec fn in_bounds(self) -> bool {
        &&& self.key_start <= self.line@.len()
        &&& self.key_end <= self.line@.len()
        &&& self.value_start <= self.line@.len()
        &&& self.value_end <= self.line@.len()
    }

    /// The bytes that the cursor runs over.
    pub closed spec fn line(self) -> Seq<u8> {
        self.line@
    }

    /// Where the next entry is looked for.
    pub closed spec fn cursor(self) -> int {
        self.value_end as int
    }

    /// Whether the list has ended.
    pub closed spec fn finished(self) -> bool {
        self.found_eol
    }

    /// Where the search for a key starts, and the key where one was found.
    pub closed spec fn key_position(self) -> int {
        self.key_start as int
    }

    /// The entries that are still to come.
    pub open spec fn remaining_entries(self) -> Seq<Entry> {
        if self.finished() {
            Seq::empty()
        } else {
            entries_from(self.line(), self.cursor())
        }
    }

    /// The pairs that are still to come.
    pub open spec fn remaining(self) -> Seq<(Seq<u8>, ValueModel)> {
        text_pairs(self.line(), self.remaining_entries())
    }

    /// A cursor at the start of `line`.
    pub fn new(line: &'s [u8]) -> (r: Self)
        ensures
            r.line() == line@,
            r.cursor() == 0,
            r.key_position() == 0,
            !r.finished(),
            r.remaining() == pairs(line@),
    {
        Self { line, key_start: 0, key_end: 0, value_start: 0, value_end: 0, found_eol: false }
    }

    /// Moves the key position to the first byte of the next key. There is
    /// none where a `)` comes first, which ends the list, or where the input
    /// ends; the key position then stays where it was.
    pub fn find_key_start(&mut self) -> (r: Option<()>)
        ensures
            final(self).line() == old(self).line(),
            final(self).cursor() == old(self).cursor(),
            ({
                let line = old(self).line();
                let at = scan(line, old(self).key_position(), Stop::KeyStart);
                if at >= line.len() {
                    &&& r is None
                    &&& final(self).key_position() == old(self).key_position()
                    &&& final(self).finished() == old(self).finished()
                } else if line[at] == CLOSE_PAREN {
                    &&& r is None
                    &&& final(self).key_position() == old(self).key_position()
                    &&& final(self).finished()
                } else {
                    &&& r is Some
                    &&& final(self).key_position() == at
                    &&& final(self).finished() == old(self).finished()
                }
            }),
    {
        proof {
            use_type_invariant(&*self);
        }
        let at = scan_from(self.line, self.key_start, Stop::KeyStart);
        if at >= self.line.len() {
            return None;
        }
        if self.line[at] == CLOSE_PAREN {
            self.found_eol = true;
            return None;
        }
        self.key_start = at;
        Some(())
    }

    /// Sets the end of the key that starts at the key position. `None` where
    /// the key runs to the end of the input.
    fn fine_key_end(&mut self) -> (r: Option<()>)
        ensures
            final(self).line == old(self).line,
            final(self).found_eol == old(self).found_eol,
            final(self).key_start == old(self).key_start,
            final(self).value_start == old(self).value_start,
            final(self).value_end == old(self).value_end,
            final(self).key_end == scan(old(self).line@, old(self).key_start as int, Stop::KeyEnd),
            r is Some <==> final(self).key_end < old(self).line@.len(),
    {
        proof {
            use_type_invariant(&*self);
        }
        let at = scan_from(self.line, self.key_start, Stop::KeyEnd);
        self.key_end = at;
        if at < self.line.len() {
            Some(())
        } else {
            None
        }
    }

    /// Looks behind the key for its value: the first byte of one, a
    /// separator, at which reading then goes on, or the end of the list.
    fn fine_value_start(&mut self) -> (r: TokenResult)
        ensures
            final(self).line == old(self).line,
            final(self).key_start == old(self).key_start,
            final(self).key_end == old(self).key_end,
            ({
                let line = old(self).line@;
                let at = scan(line, old(self).key_end as int, Stop::ValueStart);
                if at >= line.len() || line[at] == CLOSE_PAREN {
                    &&& r is Eol
                    &&& final(self).found_eol
                    &&& final(self).value_start == old(self).value_start
                    &&& final(self).value_end == old(self).value_end
                } else if is_params_separator(line[at]) {
                    &&& r is NoValue
                    &&& final(self).found_eol == old(self).found_eol
                    &&& final(self).value_start == old(self).value_start
                    &&& final(self).value_end == at
                } else {
                    &&& r is Found
                    &&& final(self).found_eol == old(self).found_eol
                    &&& final(self).value_start == at
                    &&& final(self).value_end == old(self).value_end
                }
            }),
    {
        proof {
            use_type_invariant(&*self);
        }
        let at = scan_from(self.line, self.key_end, Stop::ValueStart);
        if at >= self.line.len() {
            self.found_eol = true;
            return TokenResult::Eol;
        }
        let b = self.line[at];
        if is_params_separator(b) {
            self.value_end = at;
            return TokenResult::NoValue;
        }
        if b == CLOSE_PAREN {
            self.found_eol = true;
            return TokenResult::Eol;
        }
        self.value_start = at;
        TokenResult::Found
    }

    /// Sets the end of the value that starts at the value position: behind
    /// the closing quote of a quoted value, else at the byte that ends the
    /// value. `None` where the input ends first.
    fn fine_value_end(&mut self) -> (r: Option<()>)
        requires
            old(self).value_start < old(self).line@.len(),
        ensures
            final(self).line == old(self).line,
            final(self).found_eol == old(self).found_eol,
            final(self).key_start == old(self).key_start,
            final(self).key_end == old(self).key_end,
            final(self).value_start == old(self).value_start,
            match value_end(old(self).line@, old(self).value_start as int) {
                Some(end) => r is Some && final(self).value_end == end,
                None => r is None && final(self).value_end == old(self).value_end,
            },
    {
        proof {
            use_type_invariant(&*self);
        }
        let first = self.line[self.value_start];
        if first == DOUBLE_QUOTE || first == SINGLE_QUOTE {
            let at = scan_from(self.line, self.value_start + 1, Stop::ClosingQuote(first));
            if at < self.line.len() {
                self.value_end = at + 1;
                return Some(());
            }
        } else {
            let at = scan_from(self.line, self.value_start + 1, Stop::BareValueEnd);
            if at < self.line.len() {
                self.value_end = at;
                return Some(());
            }
        }
        None
    }

    /// The spans of the next entry: its key and its value as written, the
    /// value unset for a flag. `None` once the list has ended.
    pub fn next_entry(&mut self) -> (r: Option<(Position, Position)>)
        ensures
            final(self).line() == old(self).line(),
            match r {
                Some((key, value)) => {
                    &&& old(self).remaining_entries().len() > 0
                    &&& old(self).remaining_entries()[0] == (Entry { key: key@, value: value@ })
                    &&& is_well_shaped(old(self).line(), Entry { key: key@, value: value@ })
                    &&& final(self).remaining_entries() == old(self).remaining_entries().drop_first()
                },
                None => {
                    &&& old(self).remaining_entries().len() == 0
                    &&& final(self).remaining_entries().len() == 0
                },
            },
    {
        proof {
            use_type_invariant(&*self);
            lemma_read_entry(self.line@, self.value_end as int);
            lemma_entries_unfold(self.line@, self.value_end as int);
        }
        if self.found_eol {
            return None;
        }
        self.key_start = self.value_end;
        if self.find_key_start().is_none() {
            proof {
                use_type_invariant(&*self);
            }
            self.found_eol = true;
            return None;
        }
        self.fine_key_end();
        let key = Position { from: self.key_start, to: self.key_end };
        let result = self.fine_value_start();
        if result.is_end_of_line() {
            return Some((key, Position::unset()));
        }
        if result.is_none() {
            return Some((key, Position::unset()));
        }
        if self.fine_value_end().is_none() {
            proof {
                use_type_invariant(&*self);
            }
            self.found_eol = true;
            return None;
        }
        Some((key, Position { from: self.value_start, to: self.value_end }))
    }

    /// The next pair: the key as text and its typed value. `None` once the
    /// list has ended, and from an entry on whose key or value is not text.
    pub fn next(&mut self) -> (r: Option<(&'s str, AttributeValue<'s>)>)
        ensures
            final(self).line() == old(self).line(),
            match r {
                Some((key, value)) => {
                    &&& old(self).remaining().len() > 0
                    &&& old(self).remaining()[0] == (key.spec_bytes(), value@)
                    &&& final(self).remaining() == old(self).remaining().drop_first()
                },
                None => old(self).remaining().len() == 0 && final(self).remaining().len() == 0,
            },
    {
        proof {
            use_type_invariant(&*self);
            lemma_read_entry(self.line@, self.value_end as int);
            lemma_entries_unfold(self.line@, self.value_end as int);
        }
        let line = self.line;
        match self.next_entry() {
            None => None,
            Some((key, value)) => {
                let ghost entry = Entry { key: key@, value: value@ };
                let ghost rest = old(self).remaining_entries().drop_first();
                let found = match utf8_text(slice_subrange(line, key.from, key.to)) {
                    None => None,
                    Some(key_text) => {
                        if value.to == 0 {
                            Some((key_text, AttributeValue::NoValue))
                        } else {
                            let token = slice_subrange(line, value.from, value.to);
                            match AttributeValue::try_parse(token) {
                                None => None,
                                Some(typed) => Some((key_text, typed)),
                            }
                        }
                    },
                };
                proof {
                    use_type_invariant(&*self);
                    assert(entry.key.of(line@) =~= line@.subrange(key.from as int, key.to as int));
                    assert(found is Some <==> is_text_entry(line@, entry));
                    if found is Some {
                        assert(old(self).remaining() == seq![pair_of(line@, entry)] + text_pairs(
                            line@,
                            rest,
                        ));
                        assert(old(self).remaining().drop_first() =~= text_pairs(line@, rest));
                    }
                }
                if found.is_none() {
                    self.found_eol = true;
                }
                found
            },
        }
    }

    /// All the pairs that are still to come, in their order.
    pub fn collect(self) -> (r: Vec<(&'s str, AttributeValue<'s>)>)
        ensures
            pairs_view(r@) == self.remaining(),
    {
        let mut parser = self;
        let mut out: Vec<(&'s str, AttributeValue<'s>)> = Vec::new();
        let mut item = parser.next();
        while item.is_some()
            invariant
                item is None ==> parser.remaining().len() == 0,
                self.remaining() == pairs_view(out@) + match item {
                    Some((key, value)) => seq![(key.spec_bytes(), value@)] + parser.remaining(),
                    None => Seq::empty(),
                },
            decreases parser.remaining().len() + (if item is Some { 1int } else { 0int }),
        {
            let ghost before = out@;
            let pair = item.unwrap();
            out.push(pair);
            item = parser.next();
            proof {
                assert(pairs_view(out@) =~= pairs_view(before) + seq![(pair.0.spec_bytes(), pair.1@)]);
            }
        }
        assert(self.remaining() =~= pairs_view(out@));
        out
    }
}

} // verus!
