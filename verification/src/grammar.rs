//! What a parameter list means: the entries that its bytes hold, as spans,
//! and the pairs of key and typed value that the entries stand for.
//!
//! Reading is done one entry at a time from a position in the input:
//!
//! 1. pass `(`, `*`, whitespace and separators; a `)` or the end of the input
//!    ends the list;
//! 2. the key runs up to the next separator, `=`, `:`, whitespace or `)`;
//! 3. pass `=`, `:` and whitespace; a separator, a `)` or the end of the
//!    input makes the key a flag, and the last two end the list;
//! 4. a value that starts with `"` or `'` runs through the next such quote,
//!    any other value up to the next space, separator or `)`; a value that
//!    the input does not terminate ends the list unreported.
//!
//! Reading goes on behind the value, or at the separator behind a flag.

use crate::attribute_value::{classify, is_token, retained, ValueModel};
use crate::bytes::{
    is_quote, lemma_scan, scan, spec_is_params_separator, Stop, CLOSE_PAREN, DOUBLE_QUOTE,
};
use crate::position::Span;
use crate::text::{lemma_boundary_after_ascii, lemma_boundary_at_ascii, lemma_text_span};
use vstd::prelude::*;
use vstd::utf8::{is_char_boundary, is_char_boundary_start_end_of_seq, valid_utf8};

verus! {

/// One entry of a list: the span of its key and the span of its value as it
/// is written, quotes included. The value of a flag is unset.
pub struct Entry {
    pub key: Span,
    pub value: Span,
}

/// An entry that was read, and where reading goes on; nowhere, where the
/// entry ended the list.
pub struct Reading {
    pub entry: Entry,
    pub resume: Option<int>,
}

/// The position behind the value that starts at `start`; `None` where the
/// input ends before the value does.
pub open spec fn value_end(s: Seq<u8>, start: int) -> Option<int> {
    if is_quote(s[start]) {
        let closing = scan(s, start + 1, Stop::ClosingQuote(s[start]));
        if closing < s.len() {
            Some(closing + 1)
        } else {
            None
        }
    } else {
        let end = scan(s, start + 1, Stop::BareValueEnd);
        if end < s.len() {
            Some(end)
        } else {
            None
        }
    }
}

/// The entry that stands first at or after `from`; `None` where the list
/// ends before another entry is complete.
pub open spec fn read_entry(s: Seq<u8>, from: int) -> Option<Reading> {
    let key_start = scan(s, from, Stop::KeyStart);
    if key_start >= s.len() || s[key_start] == CLOSE_PAREN {
        None
    } else {
        let key_end = scan(s, key_start, Stop::KeyEnd);
        let key = Span { from: key_start, to: key_end };
        let value_start = scan(s, key_end, Stop::ValueStart);
        if value_start >= s.len() || s[value_start] == CLOSE_PAREN {
            Some(Reading { entry: Entry { key, value: Span::unset() }, resume: None })
        } else if spec_is_params_separator(s[value_start]) {
            Some(Reading { entry: Entry { key, value: Span::unset() }, resume: Some(value_start) })
        } else {
            match value_end(s, value_start) {
                None => None,
                Some(end) => Some(
                    Reading {
                        entry: Entry { key, value: Span { from: value_start, to: end } },
                        resume: Some(end),
                    },
                ),
            }
        }
    }
}

/// The entries of `s` from `from` on, in the order in which they stand.
pub open spec fn entries_from(s: Seq<u8>, from: int) -> Seq<Entry>
    decreases s.len() - from,
{
    match read_entry(s, from) {
        None => Seq::empty(),
        Some(reading) => seq![reading.entry] + match reading.resume {
            Some(next) if from < next <= s.len() => entries_from(s, next),
            _ => Seq::empty(),
        },
    }
}

/// The entries of the parameter list `s`.
pub open spec fn entries(s: Seq<u8>) -> Seq<Entry> {
    entries_from(s, 0)
}

/// Whether the key of `entry` is text and its value, if it has one, a token.
pub open spec fn is_text_entry(s: Seq<u8>, entry: Entry) -> bool {
    valid_utf8(entry.key.of(s)) && (entry.value.is_unset() || is_token(entry.value.of(s)))
}

/// The span of what the value written at `value` keeps: a string without
/// its quotes, any other value whole, and nothing for a flag.
pub open spec fn payload(s: Seq<u8>, value: Span) -> Span {
    if value.is_unset() {
        Span::unset()
    } else if s[value.from] == DOUBLE_QUOTE {
        Span { from: value.from + 1, to: value.to - 1 }
    } else {
        value
    }
}

/// The typed value of `entry`: none for a flag, else what its token spells.
pub open spec fn value_of(s: Seq<u8>, entry: Entry) -> ValueModel {
    if entry.value.is_unset() {
        ValueModel::NoValue
    } else {
        classify(entry.value.of(s))
    }
}

/// The pair that `entry` stands for: the bytes of its key and its typed value.
pub open spec fn pair_of(s: Seq<u8>, entry: Entry) -> (Seq<u8>, ValueModel) {
    (entry.key.of(s), value_of(s, entry))
}

/// The pairs of `items`, up to the first entry that is not text.
pub open spec fn text_pairs(s: Seq<u8>, items: Seq<Entry>) -> Seq<(Seq<u8>, ValueModel)>
    decreases items.len(),
{
    if items.len() == 0 || !is_text_entry(s, items[0]) {
        Seq::empty()
    } else {
        seq![pair_of(s, items[0])] + text_pairs(s, items.drop_first())
    }
}

/// The pairs of the parameter list `s`.
pub open spec fn pairs(s: Seq<u8>) -> Seq<(Seq<u8>, ValueModel)> {
    text_pairs(s, entries(s))
}

/// The value of the first of `pairs` whose key is `name`.
pub open spec fn first_value<V>(pairs: Seq<(Seq<u8>, V)>, name: Seq<u8>) -> Option<V>
    decreases pairs.len(),
{
    if pairs.len() == 0 {
        None
    } else if pairs[0].0 == name {
        Some(pairs[0].1)
    } else {
        first_value(pairs.drop_first(), name)
    }
}

/// The first pair with the key is the one that [`first_value`] finds.
pub proof fn lemma_first_value_at<V>(pairs: Seq<(Seq<u8>, V)>, name: Seq<u8>, at: int)
    requires
        0 <= at < pairs.len(),
        pairs[at].0 == name,
        forall|j: int| 0 <= j < at ==> (#[trigger] pairs[j]).0 != name,
    ensures
        first_value(pairs, name) == Some(pairs[at].1),
    decreases at,
{
    if at > 0 {
        let rest = pairs.drop_first();
        assert(pairs[0].0 != name);
        assert(rest[at - 1] == pairs[at]);
        assert forall|j: int| 0 <= j < at - 1 implies (#[trigger] rest[j]).0 != name by {
            assert(rest[j] == pairs[j + 1]);
        }
        lemma_first_value_at(rest, name, at - 1);
    }
}

/// The shape of every entry that is read from `s`: the key lies inside `s`
/// and starts on a byte of it; a value lies behind its key and holds at
/// least one byte, and a quoted one both its quotes.
pub open spec fn is_well_shaped(s: Seq<u8>, entry: Entry) -> bool {
    &&& 0 <= entry.key.from <= entry.key.to <= s.len()
    &&& entry.key.from < s.len()
    &&& !entry.value.is_unset() ==> {
        &&& entry.key.to < entry.value.from < entry.value.to <= s.len()
        &&& is_quote(s[entry.value.from]) ==> {
            &&& entry.value.from + 2 <= entry.value.to
            &&& s[entry.value.to - 1] == s[entry.value.from]
        }
    }
}

/// What [`read_entry`] reads is well shaped, lies at or after `from`, and
/// reading goes on behind it.
pub proof fn lemma_read_entry(s: Seq<u8>, from: int)
    requires
        0 <= from <= s.len(),
    ensures
        match read_entry(s, from) {
            None => true,
            Some(reading) => {
                &&& is_well_shaped(s, reading.entry)
                &&& from <= reading.entry.key.from
                &&& !reading.entry.value.is_unset() ==> reading.resume == Some(
                    reading.entry.value.to,
                )
                &&& reading.resume matches Some(next) ==> {
                    &&& from < next <= s.len()
                    &&& reading.entry.key.to <= next
                }
            },
        },
{
    let key_start = scan(s, from, Stop::KeyStart);
    lemma_scan(s, from, Stop::KeyStart);
    if key_start < s.len() && s[key_start] != CLOSE_PAREN {
        let key_end = scan(s, key_start, Stop::KeyEnd);
        lemma_scan(s, key_start, Stop::KeyEnd);
        let value_start = scan(s, key_end, Stop::ValueStart);
        lemma_scan(s, key_end, Stop::ValueStart);
        if value_start < s.len() && s[value_start] != CLOSE_PAREN {
            if spec_is_params_separator(s[value_start]) {
            } else {
                lemma_scan(s, value_start + 1, Stop::ClosingQuote(s[value_start]));
                lemma_scan(s, value_start + 1, Stop::BareValueEnd);
                if key_end == value_start {
                    assert(Stop::KeyEnd.spec_stops_at(s[key_end]));
                }
            }
        }
    }
}

/// Reading one entry is the first step of reading them all.
pub proof fn lemma_entries_unfold(s: Seq<u8>, from: int)
    requires
        0 <= from <= s.len(),
    ensures
        match read_entry(s, from) {
            None => entries_from(s, from) == Seq::<Entry>::empty(),
            Some(reading) => {
                &&& entries_from(s, from).len() > 0
                &&& entries_from(s, from)[0] == reading.entry
                &&& entries_from(s, from).drop_first() == match reading.resume {
                    Some(next) => entries_from(s, next),
                    None => Seq::<Entry>::empty(),
                }
            },
        },
{
    lemma_read_entry(s, from);
    match read_entry(s, from) {
        None => {},
        Some(reading) => {
            let rest = match reading.resume {
                Some(next) => entries_from(s, next),
                None => Seq::<Entry>::empty(),
            };
            assert(entries_from(s, from) == seq![reading.entry] + rest);
            assert((seq![reading.entry] + rest).drop_first() =~= rest);
        },
    }
}

/// Whether the key of `entry`, its value, and what the value keeps can all be
/// cut out of `s` as text.
pub open spec fn is_readable_entry(s: Seq<u8>, entry: Entry) -> bool {
    &&& entry.key.readable_in(s)
    &&& entry.value.readable_in(s)
    &&& payload(s, entry.value).readable_in(s)
}

/// In text, an entry read from a character boundary can be cut out as text,
/// and reading goes on at a character boundary.
pub proof fn lemma_read_entry_in_text(s: Seq<u8>, from: int)
    requires
        valid_utf8(s),
        0 <= from <= s.len(),
        is_char_boundary(s, from),
    ensures
        match read_entry(s, from) {
            None => true,
            Some(reading) => {
                &&& is_readable_entry(s, reading.entry)
                &&& reading.resume matches Some(next) ==> is_char_boundary(s, next)
            },
        },
{
    lemma_read_entry(s, from);
    is_char_boundary_start_end_of_seq(s);
    let key_start = scan(s, from, Stop::KeyStart);
    lemma_scan(s, from, Stop::KeyStart);
    if key_start < s.len() && s[key_start] != CLOSE_PAREN {
        if from < key_start {
            assert(!Stop::KeyStart.spec_stops_at(s[key_start - 1]));
            lemma_boundary_after_ascii(s, key_start - 1);
        }
        let key_end = scan(s, key_start, Stop::KeyEnd);
        lemma_scan(s, key_start, Stop::KeyEnd);
        if key_end < s.len() {
            lemma_boundary_at_ascii(s, key_end);
        }
        let value_start = scan(s, key_end, Stop::ValueStart);
        lemma_scan(s, key_end, Stop::ValueStart);
        if value_start < s.len() && s[value_start] != CLOSE_PAREN {
            if spec_is_params_separator(s[value_start]) {
                lemma_boundary_at_ascii(s, value_start);
            } else {
                assert(Stop::KeyEnd.spec_stops_at(s[key_end]));
                assert(!Stop::ValueStart.spec_stops_at(s[value_start - 1]));
                lemma_boundary_after_ascii(s, value_start - 1);
                match value_end(s, value_start) {
                    None => {},
                    Some(end) => {
                        lemma_scan(s, value_start + 1, Stop::ClosingQuote(s[value_start]));
                        lemma_scan(s, value_start + 1, Stop::BareValueEnd);
                        if is_quote(s[value_start]) {
                            lemma_boundary_after_ascii(s, value_start);
                            lemma_boundary_at_ascii(s, end - 1);
                            lemma_boundary_after_ascii(s, end - 1);
                        } else {
                            lemma_boundary_at_ascii(s, end);
                        }
                    },
                }
            }
        }
    }
}

/// In text, every entry can be cut out as text.
pub proof fn lemma_entries_in_text(s: Seq<u8>, from: int)
    requires
        valid_utf8(s),
        0 <= from <= s.len(),
        is_char_boundary(s, from),
    ensures
        forall|i: int|
            0 <= i < entries_from(s, from).len() ==> {
                &&& is_well_shaped(s, #[trigger] entries_from(s, from)[i])
                &&& is_readable_entry(s, entries_from(s, from)[i])
                &&& is_text_entry(s, entries_from(s, from)[i])
            },
    decreases s.len() - from,
{
    lemma_read_entry(s, from);
    lemma_read_entry_in_text(s, from);
    lemma_entries_unfold(s, from);
    match read_entry(s, from) {
        None => {},
        Some(reading) => {
            let all = entries_from(s, from);
            let first = reading.entry;
            if !first.key.is_unset() {
                lemma_text_span(s, first.key.from, first.key.to);
            }
            if !first.value.is_unset() {
                lemma_text_span(s, first.value.from, first.value.to);
                lemma_written_value_is_token(first.value.of(s));
            }
            assert(is_text_entry(s, first));
            match reading.resume {
                None => {
                    assert(all.drop_first().len() == 0);
                    assert(all.len() == 1);
                },
                Some(next) => {
                    lemma_entries_in_text(s, next);
                    assert forall|i: int| 0 <= i < all.len() implies {
                        &&& is_well_shaped(s, #[trigger] all[i])
                        &&& is_readable_entry(s, all[i])
                        &&& is_text_entry(s, all[i])
                    } by {
                        if i > 0 {
                            assert(all[i] == all.drop_first()[i - 1]);
                        }
                    }
                },
            }
        },
    }
}

/// Entries that are all text stand for as many pairs, each for its own.
pub proof fn lemma_text_pairs_of_text(s: Seq<u8>, items: Seq<Entry>)
    requires
        forall|i: int| 0 <= i < items.len() ==> is_text_entry(s, #[trigger] items[i]),
    ensures
        text_pairs(s, items) == Seq::new(items.len(), |i: int| pair_of(s, items[i])),
    decreases items.len(),
{
    let expected = Seq::new(items.len(), |i: int| pair_of(s, items[i]));
    if items.len() == 0 {
        assert(text_pairs(s, items) =~= expected);
    } else {
        let rest = items.drop_first();
        assert forall|i: int| 0 <= i < rest.len() implies is_text_entry(s, #[trigger] rest[i]) by {
            assert(rest[i] == items[i + 1]);
        }
        lemma_text_pairs_of_text(s, rest);
        assert(is_text_entry(s, items[0]));
        assert(text_pairs(s, items) =~= expected);
    }
}

/// What the view keeps of a value is what its typed value keeps of it.
pub proof fn lemma_payload_is_retained(s: Seq<u8>, entry: Entry)
    requires
        is_well_shaped(s, entry),
        !entry.value.is_unset(),
    ensures
        payload(s, entry.value).of(s) == retained(entry.value.of(s)),
{
    let token = entry.value.of(s);
    assert(token[0] == s[entry.value.from]);
    if s[entry.value.from] == DOUBLE_QUOTE {
        assert(payload(s, entry.value).of(s) =~= token.subrange(1, token.len() - 1));
    }
}

/// A value as it is written is a token where it is text: one that opens
/// with `"` closes with `"` too, so what lies between the two is text where
/// the whole is.
pub proof fn lemma_written_value_is_token(token: Seq<u8>)
    requires
        valid_utf8(token),
        token.len() > 0,
        token[0] == DOUBLE_QUOTE ==> token.len() >= 2 && token[token.len() - 1] == DOUBLE_QUOTE,
    ensures
        is_token(token),
{
    if token[0] == DOUBLE_QUOTE {
        let last = token.len() - 1;
        lemma_boundary_after_ascii(token, 0);
        lemma_boundary_at_ascii(token, last);
        lemma_text_span(token, 1, last);
    }
}

} // verus!
