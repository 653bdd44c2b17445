//! What holds of the tokenizer, the classifier and the parameter view
//! together, for every input.
//!
//! The laws about lists speak of a list by how it is written, byte class by
//! byte class ([`is_list`]), and say that reading finds what was written.

use crate::attr_params::{
    content_span, is_quoted, named_texts, named_value, single_span, single_value, trimmed,
};
use crate::attribute_fields_parser::AttrParamsParser;
use crate::attribute_value::{
    bool_reading, classify, kept_text, number_reading, retained, string_reading,
    type_mismatch_message, ValueModel,
};
use crate::bytes::{
    ends_bare_value, ends_key, is_key_padding, is_quote, is_value_padding, lemma_scan_is,
    spec_is_params_separator, Stop, CLOSE_PAREN, DOUBLE_QUOTE,
};
use crate::grammar::{
    entries, entries_from, first_value, is_well_shaped, lemma_entries_in_text,
    lemma_entries_unfold, lemma_first_value_at, lemma_payload_is_retained, lemma_read_entry,
    lemma_text_pairs_of_text, pair_of, pairs, payload, read_entry, value_of, Entry, Reading,
};
use crate::position::Span;
use vstd::prelude::*;
use vstd::utf8::{is_char_boundary_start_end_of_seq, valid_utf8};

verus! {

/// One entry as it is written: its key, its value (unset for a flag), and
/// where it stops: behind the value, or, for a flag, at the separator, the
/// `)` or the end of the input that comes behind the key.
pub struct Written {
    pub key: Span,
    pub value: Span,
    pub stop: int,
}

impl Written {
    /// The entry, without where it stops.
    pub open spec fn entry(self) -> Entry {
        Entry { key: self.key, value: self.value }
    }

    /// Whether this is a flag that the end of the list follows.
    pub open spec fn ends_list(self, s: Seq<u8>) -> bool {
        self.value.is_unset() && (self.stop >= s.len() || s[self.stop] == CLOSE_PAREN)
    }
}

/// Whether the value of `w` is written in `s` behind the key: after `=`, `:`
/// or whitespace, of which there is at least one byte, a quoted value that no
/// quote of its kind interrupts, or a value without space, separator or `)`
/// that one of these follows.
pub open spec fn is_value_written(s: Seq<u8>, w: Written) -> bool {
    let first = s[w.value.from];
    &&& w.key.to < w.value.from < w.value.to <= s.len()
    &&& w.stop == w.value.to
    &&& forall|j: int| w.key.to <= j < w.value.from ==> is_value_padding(#[trigger] s[j])
    &&& !is_value_padding(first) && !spec_is_params_separator(first) && first != CLOSE_PAREN
    &&& if is_quote(first) {
        &&& w.value.from + 2 <= w.value.to
        &&& s[w.value.to - 1] == first
        &&& forall|j: int| w.value.from < j < w.value.to - 1 ==> #[trigger] s[j] != first
    } else {
        &&& forall|j: int| w.value.from < j < w.value.to ==> !ends_bare_value(#[trigger] s[j])
        &&& w.value.to < s.len()
        &&& ends_bare_value(s[w.value.to])
    }
}

/// Whether `w` is a flag in `s`: behind the key only `=`, `:` or whitespace
/// stands up to a separator, a `)` or the end of the input.
pub open spec fn is_flag_written(s: Seq<u8>, w: Written) -> bool {
    &&& w.value == Span::unset()
    &&& w.key.to <= w.stop <= s.len()
    &&& forall|j: int| w.key.to <= j < w.stop ==> is_value_padding(#[trigger] s[j])
    &&& w.stop < s.len() ==> spec_is_params_separator(s[w.stop]) || s[w.stop] == CLOSE_PAREN
}

/// Whether `w` is the entry written in `s` at `from`: padding up to the key,
/// a key of at least one byte that is not padding, `)` or a byte that ends a
/// key, and then its value or what makes it a flag.
pub open spec fn is_written_at(s: Seq<u8>, from: int, w: Written) -> bool {
    &&& 0 <= from <= w.key.from < w.key.to <= s.len()
    &&& forall|j: int| from <= j < w.key.from ==> is_key_padding(#[trigger] s[j])
    &&& !is_key_padding(s[w.key.from])
    &&& forall|j: int| w.key.from <= j < w.key.to ==> !ends_key(#[trigger] s[j])
    &&& if w.value.is_unset() {
        is_flag_written(s, w)
    } else {
        is_value_written(s, w)
    }
}

/// Whether the list closes at `end`: only padding stands between `from` and
/// `end`, which is a `)` or the end of the input.
pub open spec fn is_closed_at(s: Seq<u8>, from: int, end: int) -> bool {
    &&& 0 <= from <= end <= s.len()
    &&& forall|j: int| from <= j < end ==> is_key_padding(#[trigger] s[j])
    &&& end < s.len() ==> s[end] == CLOSE_PAREN
}

/// Whether `s` holds from `from` on exactly the entries `items`, one behind
/// the other, and closes at `end` behind the last. A flag that the end of the
/// list follows is the last entry.
pub open spec fn is_list(s: Seq<u8>, from: int, items: Seq<Written>, end: int) -> bool
    decreases items.len(),
{
    if items.len() == 0 {
        is_closed_at(s, from, end)
    } else {
        &&& is_written_at(s, from, items[0])
        &&& if items[0].ends_list(s) {
            items.len() == 1 && end == items[0].stop
        } else {
            is_list(s, items[0].stop, items.drop_first(), end)
        }
    }
}

/// The entries of `items`.
pub open spec fn entries_of(items: Seq<Written>) -> Seq<Entry> {
    Seq::new(items.len(), |i: int| items[i].entry())
}

/// Where nothing but padding stands in front of a `)` or the end of the
/// input, no entry is read. So a separator at the end of a list adds no entry.
pub proof fn law_padding_holds_no_entry(s: Seq<u8>, from: int, end: int)
    requires
        is_closed_at(s, from, end),
    ensures
        read_entry(s, from) is None,
        entries_from(s, from) == Seq::<Entry>::empty(),
{
    lemma_scan_is(s, from, Stop::KeyStart, end);
}

/// An entry that is written at `from` is the entry that is read from there,
/// and reading goes on where the entry stops unless it ends the list.
pub proof fn law_written_entry_is_read(s: Seq<u8>, from: int, w: Written)
    requires
        is_written_at(s, from, w),
    ensures
        read_entry(s, from) == Some(
            Reading { entry: w.entry(), resume: if w.ends_list(s) { None } else { Some(w.stop) } },
        ),
{
    lemma_scan_is(s, from, Stop::KeyStart, w.key.from);
    assert(!ends_key(s[w.key.from]));
    if w.value.is_unset() {
        if w.key.to < w.stop {
            assert(is_value_padding(s[w.key.to]));
        }
        lemma_scan_is(s, w.key.from, Stop::KeyEnd, w.key.to);
        lemma_scan_is(s, w.key.to, Stop::ValueStart, w.stop);
    } else {
        assert(is_value_padding(s[w.key.to]));
        lemma_scan_is(s, w.key.from, Stop::KeyEnd, w.key.to);
        lemma_scan_is(s, w.key.to, Stop::ValueStart, w.value.from);
        let first = s[w.value.from];
        if is_quote(first) {
            lemma_scan_is(s, w.value.from + 1, Stop::ClosingQuote(first), w.value.to - 1);
        } else {
            lemma_scan_is(s, w.value.from + 1, Stop::BareValueEnd, w.value.to);
        }
    }
}

/// A key that is followed by a separator, by a `)` or by the end of the
/// input, with at most `=`, `:` or whitespace between, is a flag: its value
/// is the missing one, which reads as no string, no boolean and no number.
pub proof fn law_flag_has_no_value(s: Seq<u8>, from: int, w: Written)
    requires
        is_written_at(s, from, w),
        w.value.is_unset(),
    ensures
        read_entry(s, from) matches Some(reading) && reading.entry == w.entry(),
        value_of(s, w.entry()) == ValueModel::NoValue,
        pair_of(s, w.entry()) == (w.key.of(s), ValueModel::NoValue),
        string_reading(ValueModel::NoValue) == Err::<Seq<u8>, Seq<char>>(
            type_mismatch_message("string"@, "none"@),
        ),
        bool_reading(ValueModel::NoValue) == Err::<bool, Seq<char>>(
            type_mismatch_message("bool"@, "none"@),
        ),
        number_reading(ValueModel::NoValue) == Err::<Seq<u8>, Seq<char>>(
            type_mismatch_message("number"@, "none"@),
        ),
{
    law_written_entry_is_read(s, from, w);
}

/// Reading a list finds the entries that are written in it, each once and in
/// their order, whatever separates them and whatever stands between a key and
/// its value.
pub proof fn law_list_is_read(s: Seq<u8>, from: int, items: Seq<Written>, end: int)
    requires
        is_list(s, from, items, end),
    ensures
        entries_from(s, from) == entries_of(items),
    decreases items.len(),
{
    if items.len() == 0 {
        law_padding_holds_no_entry(s, from, end);
        assert(entries_of(items) =~= Seq::<Entry>::empty());
    } else {
        let first = items[0];
        law_written_entry_is_read(s, from, first);
        lemma_entries_unfold(s, from);
        let read = entries_from(s, from);
        if first.ends_list(s) {
            assert(read.drop_first().len() == 0);
            assert(read =~= entries_of(items));
        } else {
            let rest = items.drop_first();
            law_list_is_read(s, first.stop, rest, end);
            assert forall|i: int| 0 <= i < read.len() implies read[i] == entries_of(items)[i] by {
                if i > 0 {
                    assert(read[i] == read.drop_first()[i - 1]);
                    assert(rest[i - 1] == items[i]);
                }
            }
            assert(read.len() == items.len()) by {
                assert(read.drop_first().len() == rest.len());
            }
            assert(read =~= entries_of(items));
        }
    }
}

/// A flag whose separator closes the list is the last entry: the separator
/// adds no empty entry behind it.
pub proof fn law_trailing_separator(s: Seq<u8>, from: int, w: Written, end: int)
    requires
        is_written_at(s, from, w),
        w.value.is_unset(),
        w.stop < s.len() && spec_is_params_separator(s[w.stop]),
        is_closed_at(s, w.stop, end),
    ensures
        entries_from(s, from) == seq![w.entry()],
{
    law_written_entry_is_read(s, from, w);
    lemma_entries_unfold(s, from);
    law_padding_holds_no_entry(s, w.stop, end);
    let read = entries_from(s, from);
    assert(read.drop_first().len() == 0);
    assert(read =~= seq![w.entry()]);
}

/// Text is read to its end: where the input is text, every entry is text,
/// and there is a pair for each.
pub proof fn law_text_is_read_whole(s: Seq<u8>)
    requires
        valid_utf8(s),
    ensures
        pairs(s) == Seq::new(entries(s).len(), |i: int| pair_of(s, entries(s)[i])),
{
    is_char_boundary_start_end_of_seq(s);
    lemma_entries_in_text(s, 0);
    lemma_text_pairs_of_text(s, entries(s));
}

/// Reading a list that is text hands out one pair for each entry that is
/// written in it, and looking a key up gives the typed value that is written
/// for it where the key stands first.
pub proof fn law_pairs_of_list(s: Seq<u8>, items: Seq<Written>, end: int, i: int)
    requires
        valid_utf8(s),
        is_list(s, 0, items, end),
        0 <= i < items.len(),
        forall|j: int| 0 <= j < i ==> (#[trigger] items[j]).key.of(s) != items[i].key.of(s),
    ensures
        pairs(s).len() == items.len(),
        pairs(s)[i] == pair_of(s, items[i].entry()),
        first_value(pairs(s), items[i].key.of(s)) == Some(value_of(s, items[i].entry())),
{
    law_list_is_read(s, 0, items, end);
    is_char_boundary_start_end_of_seq(s);
    lemma_entries_in_text(s, 0);
    lemma_text_pairs_of_text(s, entries(s));
    let all = pairs(s);
    let name = items[i].key.of(s);
    assert(all[i] == pair_of(s, items[i].entry()));
    assert forall|j: int| 0 <= j < i implies (#[trigger] all[j]).0 != name by {
        assert(all[j] == pair_of(s, items[j].entry()));
    }
    lemma_first_value_at(all, name, i);
}

/// The view of a list gives each key the text that is written for it, a
/// string without its quotes: for every well-formed list that the view does
/// not take for a single value, and for the first entry of each key.
pub proof fn law_named_param_of_list(s: Seq<u8>, items: Seq<Written>, end: int, i: int)
    requires
        is_list(s, 0, items, end),
        single_span(s) is None,
        0 <= i < items.len(),
        forall|j: int| 0 <= j < i ==> (#[trigger] items[j]).key.of(s) != items[i].key.of(s),
    ensures
        named_value(s, items[i].key.of(s)) == Some(payload(s, items[i].value).of(s)),
        !items[i].value.is_unset() ==> payload(s, items[i].value).of(s) == retained(
            items[i].value.of(s),
        ),
        items[i].value.is_unset() ==> payload(s, items[i].value).of(s) == Seq::<u8>::empty(),
{
    law_list_is_read(s, 0, items, end);
    let texts = named_texts(s, entries(s));
    let name = items[i].key.of(s);
    assert(texts[i] == (name, payload(s, items[i].value).of(s)));
    assert forall|j: int| 0 <= j < i implies (#[trigger] texts[j]).0 != name by {
        assert(texts[j].0 == items[j].key.of(s));
    }
    lemma_first_value_at(texts, name, i);
    if !items[i].value.is_unset() {
        lemma_written_is_well_shaped(s, items, end, 0, i);
        lemma_payload_is_retained(s, items[i].entry());
    }
}

/// Every entry of a list has the shape of an entry that is read.
proof fn lemma_written_is_well_shaped(
    s: Seq<u8>,
    items: Seq<Written>,
    end: int,
    from: int,
    i: int,
)
    requires
        is_list(s, from, items, end),
        0 <= i < items.len(),
    ensures
        is_well_shaped(s, items[i].entry()),
    decreases items.len(),
{
    if i == 0 {
        law_written_entry_is_read(s, from, items[0]);
        lemma_read_entry(s, from);
    } else {
        let rest = items.drop_first();
        assert(rest[i - 1] == items[i]);
        lemma_written_is_well_shaped(s, rest, end, items[0].stop, i - 1);
    }
}

/// The first match wins: a lookup finds the value of a pair with the key
/// that has no pair with the key before it, and nothing where no pair has
/// the key.
pub proof fn law_first_match_wins<V>(pairs: Seq<(Seq<u8>, V)>, name: Seq<u8>)
    ensures
        match first_value(pairs, name) {
            Some(value) => exists|i: int|
                {
                    &&& 0 <= i < pairs.len()
                    &&& (#[trigger] pairs[i]).0 == name
                    &&& pairs[i].1 == value
                    &&& forall|j: int| 0 <= j < i ==> (#[trigger] pairs[j]).0 != name
                },
            None => forall|j: int| 0 <= j < pairs.len() ==> (#[trigger] pairs[j]).0 != name,
        },
    decreases pairs.len(),
{
    if pairs.len() > 0 && pairs[0].0 != name {
        let rest = pairs.drop_first();
        law_first_match_wins(rest, name);
        match first_value(rest, name) {
            Some(value) => {
                let i = choose|i: int|
                    {
                        &&& 0 <= i < rest.len()
                        &&& (#[trigger] rest[i]).0 == name
                        &&& rest[i].1 == value
                        &&& forall|j: int| 0 <= j < i ==> (#[trigger] rest[j]).0 != name
                    };
                assert(pairs[i + 1] == rest[i]);
                assert forall|j: int| 0 <= j < i + 1 implies (#[trigger] pairs[j]).0 != name by {
                    if j > 0 {
                        assert(pairs[j] == rest[j - 1]);
                    }
                }
            },
            None => {
                assert forall|j: int| 0 <= j < pairs.len() implies (#[trigger] pairs[j]).0
                    != name by {
                    if j > 0 {
                        assert(pairs[j] == rest[j - 1]);
                    }
                }
            },
        }
    } else if pairs.len() > 0 {
        assert(pairs[0].0 == name);
    }
}

/// The view and the tokenizer agree on every text that the view reads as a
/// list: the value that the view gives a key is the text that the typed
/// value of the first pair with this key keeps.
pub proof fn law_view_agrees_with_tokenizer(s: Seq<u8>, name: Seq<u8>)
    requires
        valid_utf8(s),
        single_span(s) is None,
    ensures
        named_value(s, name) == match first_value(pairs(s), name) {
            Some(value) => Some(kept_text(value)),
            None => None,
        },
{
    law_text_is_read_whole(s);
    is_char_boundary_start_end_of_seq(s);
    lemma_entries_in_text(s, 0);
    let items = entries(s);
    let texts = named_texts(s, items);
    let typed = pairs(s);
    assert forall|i: int| 0 <= i < items.len() implies (#[trigger] texts[i]).0 == typed[i].0
        && texts[i].1 == kept_text(typed[i].1) by {
        let entry = items[i];
        assert(is_well_shaped(s, entry));
        if !entry.value.is_unset() {
            lemma_payload_is_retained(s, entry);
        }
    }
    lemma_first_value_of_kept(texts, typed, name);
}

/// Looking a key up among texts finds the text of what it finds among the
/// typed pairs with the same keys.
proof fn lemma_first_value_of_kept(
    texts: Seq<(Seq<u8>, Seq<u8>)>,
    typed: Seq<(Seq<u8>, ValueModel)>,
    name: Seq<u8>,
)
    requires
        texts.len() == typed.len(),
        forall|i: int|
            0 <= i < texts.len() ==> (#[trigger] texts[i]).0 == typed[i].0 && texts[i].1
                == kept_text(typed[i].1),
    ensures
        first_value(texts, name) == match first_value(typed, name) {
            Some(value) => Some(kept_text(value)),
            None => None,
        },
    decreases texts.len(),
{
    if texts.len() > 0 {
        assert(texts[0].0 == typed[0].0);
        let rest_texts = texts.drop_first();
        let rest_typed = typed.drop_first();
        assert forall|i: int| 0 <= i < rest_texts.len() implies (#[trigger] rest_texts[i]).0
            == rest_typed[i].0 && rest_texts[i].1 == kept_text(rest_typed[i].1) by {
            assert(rest_texts[i] == texts[i + 1]);
            assert(rest_typed[i] == typed[i + 1]);
        }
        lemma_first_value_of_kept(rest_texts, rest_typed, name);
    }
}

/// A double-quoted string reads back as what stands between its quotes: as
/// a token of any content, and as the text of a view where the content holds
/// no double quote.
pub proof fn law_quoted_string_round_trip(x: Seq<u8>)
    ensures
        classify(seq![DOUBLE_QUOTE] + x + seq![DOUBLE_QUOTE]) == ValueModel::Str(x),
        string_reading(classify(seq![DOUBLE_QUOTE] + x + seq![DOUBLE_QUOTE])) == Ok::<
            Seq<u8>,
            Seq<char>,
        >(x),
        (forall|j: int| 0 <= j < x.len() ==> x[j] != DOUBLE_QUOTE) ==> single_value(
            seq![DOUBLE_QUOTE] + x + seq![DOUBLE_QUOTE],
        ) == Some(x),
{
    let token = seq![DOUBLE_QUOTE] + x + seq![DOUBLE_QUOTE];
    let len = token.len() as int;
    assert(token[0] == DOUBLE_QUOTE);
    assert(token[len - 1] == DOUBLE_QUOTE);
    assert(token.subrange(1, len - 1) =~= x);
    if forall|j: int| 0 <= j < x.len() ==> x[j] != DOUBLE_QUOTE {
        assert(token.take(len) =~= token);
        assert(trimmed(token, 0, len) == Span { from: 0, to: len });
        assert(content_span(token) == Span { from: 0, to: len });
        assert forall|j: int| 1 <= j < len - 1 implies !Stop::ClosingQuote(
            DOUBLE_QUOTE,
        ).spec_stops_at(#[trigger] token[j]) by {
            assert(token[j] == x[j - 1]);
        }
        lemma_scan_is(token, 1, Stop::ClosingQuote(DOUBLE_QUOTE), len - 1);
        assert(is_quoted(token, 0, len));
    }
}

/// Reading the same bytes again hands out the same pairs in the same order:
/// what a cursor at the start of a list has to come is decided by the bytes
/// of the list alone.
pub proof fn law_same_bytes_same_pairs(a: AttrParamsParser, b: AttrParamsParser)
    requires
        a.line() == b.line(),
        a.cursor() == 0 && !a.finished(),
        b.cursor() == 0 && !b.finished(),
    ensures
        a.remaining() == pairs(a.line()),
        a.remaining() == b.remaining(),
{
}

} // verus!
