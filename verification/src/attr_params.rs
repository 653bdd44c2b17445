//! The parameter view: owns the text of a parameter list, decides once
//! whether it is a single bare value or a list of named values, and answers
//! lookups with slices of the text it owns.
//!
//! The text is a single value
//!
//! * where its content is wrapped in one pair of double quotes, and then the
//!   value is what stands between them;
//! * where its content holds at least one byte and no whitespace, and then
//!   the value is the content as a whole.
//!
//! The content is the text without the whitespace around it, without the
//! pair of parentheses that encloses it, if there is one, and without the
//! whitespace just inside the parentheses. Any other text is a list, read by
//! the tokenizer from its first byte on.

use crate::attribute_fields_parser::AttrParamsParser;
use crate::attribute_value::{convert_text, number_result, parse_error_message};
use crate::bytes::{
    is_whitespace, lemma_scan, scan, scan_from, Stop, CLOSE_PAREN, DOUBLE_QUOTE, OPEN_PAREN, SPACE,
};
use crate::grammar::{
    entries, first_value, is_readable_entry, is_well_shaped, lemma_entries_in_text, payload, Entry,
};
use crate::position::{Position, Span};
use crate::text::{lemma_boundary_after_ascii, lemma_boundary_at_ascii, span_equals};
use std::str::FromStr;
use vstd::prelude::*;
use vstd::slice::slice_subrange;
use vstd::string::*;
use vstd::utf8::*;

verus! {

/// How a parameter text is structured, in specifications.
pub enum ParamsModel {
    /// One value without a key.
    Single(Span),
    /// Keys with their values, in the order in which they stand.
    Multiple(Seq<(Span, Span)>),
}

/// The end of `s[from..to]` once the whitespace at its end is dropped.
pub open spec fn trim_end(s: Seq<u8>, from: int, to: int) -> int
    decreases to - from,
{
    if to <= from {
        from
    } else if is_whitespace(s[to - 1]) {
        trim_end(s, from, to - 1)
    } else {
        to
    }
}

/// The span of `s[from..to]` without the whitespace at its two ends.
pub open spec fn trimmed(s: Seq<u8>, from: int, to: int) -> Span {
    let start = scan(s.take(to), from, Stop::NonWhitespace);
    Span { from: start, to: trim_end(s, start, to) }
}

/// The span of the content of `s`.
pub open spec fn content_span(s: Seq<u8>) -> Span {
    let outer = trimmed(s, 0, s.len() as int);
    if outer.to - outer.from >= 2 && s[outer.from] == OPEN_PAREN && s[outer.to - 1]
        == CLOSE_PAREN {
        trimmed(s, outer.from + 1, outer.to - 1)
    } else {
        outer
    }
}

/// Whether `s[from..to]` is wrapped in one pair of double quotes: it starts
/// with one, ends with one, and holds no other.
pub open spec fn is_quoted(s: Seq<u8>, from: int, to: int) -> bool {
    &&& to - from >= 2
    &&& s[from] == DOUBLE_QUOTE
    &&& scan(s, from + 1, Stop::ClosingQuote(DOUBLE_QUOTE)) == to - 1
}

/// Whether `s[from..to]` holds at least one byte and no whitespace.
pub open spec fn is_bare(s: Seq<u8>, from: int, to: int) -> bool {
    from < to && scan(s, from, Stop::Whitespace) >= to
}

/// The span of the single value of `s`; `None` where `s` is a list.
pub open spec fn single_span(s: Seq<u8>) -> Option<Span> {
    let content = content_span(s);
    if is_quoted(s, content.from, content.to) {
        Some(Span { from: content.from + 1, to: content.to - 1 })
    } else if is_bare(s, content.from, content.to) {
        Some(content)
    } else {
        None
    }
}

/// For each of `items` the span of its key and the span of what its value
/// keeps.
pub open spec fn named_spans(s: Seq<u8>, items: Seq<Entry>) -> Seq<(Span, Span)> {
    Seq::new(items.len(), |i: int| (items[i].key, payload(s, items[i].value)))
}

/// How the parameter text `s` is structured.
pub open spec fn shape_of(s: Seq<u8>) -> ParamsModel {
    match single_span(s) {
        Some(span) => ParamsModel::Single(span),
        None => ParamsModel::Multiple(named_spans(s, entries(s))),
    }
}

/// For each of `items` the text of its key and the text that its value
/// keeps.
pub open spec fn named_texts(s: Seq<u8>, items: Seq<Entry>) -> Seq<(Seq<u8>, Seq<u8>)> {
    Seq::new(items.len(), |i: int| (items[i].key.of(s), payload(s, items[i].value).of(s)))
}

/// The single value of the parameter text `s`.
pub open spec fn single_value(s: Seq<u8>) -> Option<Seq<u8>> {
    match shape_of(s) {
        ParamsModel::Single(span) => Some(span.of(s)),
        ParamsModel::Multiple(_) => None,
    }
}

/// The value that the parameter text `s` gives the key `name`: that of the
/// first entry with this key. A flag has the empty value, and a text that is
/// a single value has no keys.
pub open spec fn named_value(s: Seq<u8>, name: Seq<u8>) -> Option<Seq<u8>> {
    match single_span(s) {
        Some(_) => None,
        None => first_value(named_texts(s, entries(s)), name),
    }
}

/// The single value of `s` where it has one, else the value of `name`.
pub open spec fn single_or_named_value(s: Seq<u8>, name: Seq<u8>) -> Option<Seq<u8>> {
    match single_value(s) {
        Some(value) => Some(value),
        None => named_value(s, name),
    }
}

/// How a parameter text is structured: one value, or keys with their values.
#[derive(Debug)]
pub enum ParamsType {
    Single(Position),
    Multiple(Vec<(Position, Position)>),
}

/// The spans that a vector of positions stands for.
pub open spec fn spans_view(items: Seq<(Position, Position)>) -> Seq<(Span, Span)> {
    Seq::new(items.len(), |i: int| (items[i].0@, items[i].1@))
}

impl View for ParamsType {
    type V = ParamsModel;

    open spec fn view(&self) -> ParamsModel {
        match self {
            ParamsType::Single(position) => ParamsModel::Single(position@),
            ParamsType::Multiple(items) => ParamsModel::Multiple(spans_view(items@)),
        }
    }
}

/// The value of a parameter: a slice of the text that the view owns. A
/// quoted value comes without its quotes.
#[derive(Clone, Copy, Debug)]
pub struct ParamValue<'s> {
    pub value: &'s str,
}

impl<'s> View for ParamValue<'s> {
    type V = Seq<u8>;

    open spec fn view(&self) -> Seq<u8> {
        self.value.spec_bytes()
    }
}

impl<'s> ParamValue<'s> {
    /// The value as text.
    pub fn get_value_as_str(&self) -> (r: &'s str)
        ensures
            r == self.value,
    {
        self.value
    }

    /// The value, converted to the type that the caller asks for; a parse
    /// error where the conversion does not take the text.
    pub fn get_value<TFromStr: FromStr>(&self) -> (r: Result<TFromStr, String>)
        ensures
            r matches Err(message) ==> message@ == parse_error_message(self.value@),
    {
        number_result(convert_text::<TFromStr>(self.value), self.value)
    }
}

/// Whether `found` is the value `expected`, or both are missing.
pub open spec fn is_value(found: Option<ParamValue<'_>>, expected: Option<Seq<u8>>) -> bool {
    match found {
        Some(value) => expected == Some(value@),
        None => expected is None,
    }
}

/// Drops the whitespace at the end of `line[from..to]`.
fn trim_end_from(line: &[u8], from: usize, to: usize) -> (end: usize)
    requires
        from <= to <= line@.len(),
    ensures
        end == trim_end(line@, from as int, to as int),
        from <= end <= to,
{
    let mut end: usize = to;
    while end > from && line[end - 1] <= SPACE
        invariant
            from <= end <= to <= line@.len(),
            trim_end(line@, from as int, to as int) == trim_end(line@, from as int, end as int),
        decreases end,
    {
        end -= 1;
    }
    end
}

/// Drops the whitespace at the two ends of `line[from..to]`.
fn trim(line: &[u8], from: usize, to: usize) -> (r: Position)
    requires
        from <= to <= line@.len(),
    ensures
        r@ == trimmed(line@, from as int, to as int),
        from <= r.from <= r.to <= to,
{
    let head = slice_subrange(line, 0, to);
    let start = scan_from(head, from, Stop::NonWhitespace);
    Position { from: start, to: trim_end_from(line, start, to) }
}

/// The position of the single value of `src`; `None` where `src` is a list.
pub fn is_single_value(src: &str) -> (r: Option<Position>)
    ensures
        match r {
            Some(position) => single_span(src.spec_bytes()) == Some(position@),
            None => single_span(src.spec_bytes()) is None,
        },
{
    let line = src.as_bytes();
    let outer = trim(line, 0, line.len());
    let content = if outer.to - outer.from >= 2 && line[outer.from] == OPEN_PAREN && line[outer.to
        - 1] == CLOSE_PAREN {
        trim(line, outer.from + 1, outer.to - 1)
    } else {
        outer
    };
    if content.to - content.from >= 2 && line[content.from] == DOUBLE_QUOTE {
        let closing = scan_from(line, content.from + 1, Stop::ClosingQuote(DOUBLE_QUOTE));
        if closing == content.to - 1 {
            return Some(Position { from: content.from + 1, to: content.to - 1 });
        }
    }
    if content.from < content.to && scan_from(line, content.from, Stop::Whitespace) >= content.to {
        return Some(content);
    }
    None
}

/// The position of what the value written at `value` keeps.
fn payload_position(line: &[u8], value: Position) -> (r: Position)
    requires
        !value@.is_unset() ==> value.from < value.to <= line@.len(),
        !value@.is_unset() && line@[value.from as int] == DOUBLE_QUOTE ==> value.from + 2
            <= value.to,
    ensures
        r@ == payload(line@, value@),
{
    if value.to == 0 {
        Position::unset()
    } else if line[value.from] == DOUBLE_QUOTE {
        Position { from: value.from + 1, to: value.to - 1 }
    } else {
        value
    }
}

/// Reads the list `line`: for each entry the position of its key and the
/// position of what its value keeps.
fn read_named(line: &[u8]) -> (r: Vec<(Position, Position)>)
    ensures
        spans_view(r@) == named_spans(line@, entries(line@)),
{
    let mut parser = AttrParamsParser::new(line);
    let mut out: Vec<(Position, Position)> = Vec::new();
    let ghost all = entries(line@);
    let ghost mut done: int = 0;
    let mut item = parser.next_entry();
    while item.is_some()
        invariant
            parser.line() == line@,
            0 <= done <= all.len(),
            out@.len() == done,
            spans_view(out@) == named_spans(line@, all.take(done)),
            match item {
                Some((key, value)) => {
                    &&& done < all.len()
                    &&& all[done] == (Entry { key: key@, value: value@ })
                    &&& is_well_shaped(line@, all[done])
                    &&& parser.remaining_entries() == all.skip(done + 1)
                },
                None => done == all.len(),
            },
        decreases all.len() - done,
    {
        let ghost before = out@;
        let (key, value) = item.unwrap();
        out.push((key, payload_position(line, value)));
        item = parser.next_entry();
        proof {
            let now = all.take(done + 1);
            assert forall|j: int| 0 <= j < done + 1 implies #[trigger] spans_view(out@)[j]
                == named_spans(line@, now)[j] by {
                if j < done {
                    assert(out@[j] == before[j]);
                    assert(spans_view(before)[j] == named_spans(line@, all.take(done))[j]);
                    assert(now[j] == all.take(done)[j]);
                }
            }
            assert(spans_view(out@) =~= named_spans(line@, now));
            let rest = all.skip(done + 1);
            if item is Some {
                assert(rest[0] == all[done + 1]);
                assert(rest.drop_first() =~= all.skip(done + 2));
            }
            done = done + 1;
        }
    }
    proof {
        assert(all.take(done) =~= all);
    }
    out
}

/// A view of one parameter text.
pub struct AttributeParams {
    src: String,
    params: ParamsType,
}

impl AttributeParams {
    #[verifier::type_invariant]
    spec fn is_resolved(self) -> bool {
        self.params@ == shape_of(encode_utf8(self.src@))
    }

    /// The bytes of the text that the view owns.
    pub closed spec fn source(&self) -> Seq<u8> {
        encode_utf8(self.src@)
    }

    /// How the text is structured, as it was decided when the view was made.
    pub closed spec fn shape(&self) -> ParamsModel {
        self.params@
    }

    /// Takes `src` and decides how it is structured.
    pub fn new(src: String) -> (r: Self)
        ensures
            r.source() == encode_utf8(src@),
            r.shape() == shape_of(encode_utf8(src@)),
    {
        let single = is_single_value(src.as_str());
        let params = match single {
            Some(position) => ParamsType::Single(position),
            None => ParamsType::Multiple(read_named(src.as_str().as_bytes())),
        };
        Self { src, params }
    }

    /// The value of a text that is a single value.
    pub fn get_single_param<'s>(&'s self) -> (r: Option<ParamValue<'s>>)
        ensures
            is_value(r, single_value(self.source())),
    {
        proof {
            use_type_invariant(self);
            encode_utf8_valid_utf8(self.src@);
            lemma_single_span_in_text(self.source());
        }
        match &self.params {
            ParamsType::Single(position) => Some(
                ParamValue { value: position.get_str(self.src.as_str()) },
            ),
            _ => None,
        }
    }

    /// The value of the first entry of a list whose key is `param_name`.
    pub fn get_named_param<'s>(&'s self, param_name: &str) -> (r: Option<ParamValue<'s>>)
        ensures
            is_value(r, named_value(self.source(), param_name.spec_bytes())),
    {
        proof {
            use_type_invariant(self);
        }
        match &self.params {
            ParamsType::Multiple(key_values) => {
                let src = self.src.as_str();
                let line = src.as_bytes();
                let name = param_name.as_bytes();
                let ghost items = entries(line@);
                let ghost texts = named_texts(line@, items);
                proof {
                    encode_utf8_valid_utf8(self.src@);
                    is_char_boundary_start_end_of_seq(line@);
                    lemma_entries_in_text(line@, 0);
                    assert(texts.skip(0) =~= texts);
                    assert(spans_view(key_values@).len() == named_spans(line@, items).len());
                }
                let mut i: usize = 0;
                while i < key_values.len()
                    invariant
                        i <= key_values@.len(),
                        key_values@.len() == items.len(),
                        line@ == src.spec_bytes(),
                        name@ == param_name.spec_bytes(),
                        items == entries(line@),
                        texts == named_texts(line@, items),
                        spans_view(key_values@) == named_spans(line@, items),
                        named_value(self.source(), name@) == first_value(texts, name@),
                        first_value(texts, name@) == first_value(texts.skip(i as int), name@),
                        forall|k: int|
                            0 <= k < items.len() ==> {
                                &&& is_well_shaped(line@, #[trigger] items[k])
                                &&& is_readable_entry(line@, items[k])
                            },
                    decreases key_values@.len() - i,
                {
                    let key = key_values[i].0;
                    let value = key_values[i].1;
                    proof {
                        let entry = items[i as int];
                        assert(is_well_shaped(line@, entry));
                        assert(spans_view(key_values@)[i as int] == (key@, value@));
                        assert(key@ == entry.key);
                        assert(key@.of(line@) =~= line@.subrange(key.from as int, key.to as int));
                        assert(texts.skip(i as int)[0] == texts[i as int]);
                        assert(texts.skip(i as int).drop_first() =~= texts.skip(i as int + 1));
                    }
                    if span_equals(line, key.from, key.to, name) {
                        return Some(ParamValue { value: value.get_str(src) });
                    }
                    i += 1;
                }
                None
            },
            _ => None,
        }
    }

    /// Whether a list has an entry whose key is `param_name`.
    pub fn has_param(&self, param_name: &str) -> (r: bool)
        ensures
            r == (named_value(self.source(), param_name.spec_bytes()) is Some),
    {
        self.get_named_param(param_name).is_some()
    }

    /// The single value where the text is one, else the value of the first
    /// entry whose key is `param_name`.
    pub fn get_from_single_or_named<'s>(&'s self, param_name: &str) -> (r: Option<ParamValue<'s>>)
        ensures
            is_value(r, single_or_named_value(self.source(), param_name.spec_bytes())),
    {
        if let Some(result) = self.get_single_param() {
            return Some(result);
        }
        self.get_named_param(param_name)
    }
}

/// The content of a text lies inside the text.
pub proof fn lemma_content_span(s: Seq<u8>)
    ensures
        0 <= content_span(s).from <= content_span(s).to <= s.len(),
{
    let len = s.len() as int;
    lemma_scan(s.take(len), 0, Stop::NonWhitespace);
    let outer = trimmed(s, 0, len);
    lemma_trim_end(s, outer.from, len);
    if outer.to - outer.from >= 2 {
        lemma_scan(s.take(outer.to - 1), outer.from + 1, Stop::NonWhitespace);
        let start = scan(s.take(outer.to - 1), outer.from + 1, Stop::NonWhitespace);
        lemma_trim_end(s, start, outer.to - 1);
    }
}

/// Dropping whitespace at the end leaves an end inside the range.
pub proof fn lemma_trim_end(s: Seq<u8>, from: int, to: int)
    requires
        from <= to,
    ensures
        from <= trim_end(s, from, to) <= to,
    decreases to - from,
{
    if to > from && is_whitespace(s[to - 1]) {
        lemma_trim_end(s, from, to - 1);
    }
}

/// The single value of a text can be cut out of it as text.
pub proof fn lemma_single_span_in_text(s: Seq<u8>)
    requires
        valid_utf8(s),
    ensures
        single_span(s) matches Some(span) ==> span.readable_in(s),
{
    lemma_content_span(s);
    is_char_boundary_start_end_of_seq(s);
    let content = content_span(s);
    if is_quoted(s, content.from, content.to) {
        lemma_boundary_after_ascii(s, content.from);
        lemma_scan(s, content.from + 1, Stop::ClosingQuote(DOUBLE_QUOTE));
        lemma_boundary_at_ascii(s, content.to - 1);
    } else if is_bare(s, content.from, content.to) {
        lemma_content_boundaries(s);
    }
}

/// The content of a text starts and ends on a character boundary.
pub proof fn lemma_content_boundaries(s: Seq<u8>)
    requires
        valid_utf8(s),
    ensures
        is_char_boundary(s, content_span(s).from),
        is_char_boundary(s, content_span(s).to),
{
    let len = s.len() as int;
    is_char_boundary_start_end_of_seq(s);
    lemma_trimmed_boundaries(s, 0, len);
    let outer = trimmed(s, 0, len);
    if outer.to - outer.from >= 2 && s[outer.from] == OPEN_PAREN && s[outer.to - 1]
        == CLOSE_PAREN {
        lemma_trim_end(s, outer.from, len);
        lemma_scan(s.take(len), 0, Stop::NonWhitespace);
        lemma_boundary_after_ascii(s, outer.from);
        lemma_boundary_at_ascii(s, outer.to - 1);
        lemma_trimmed_boundaries(s, outer.from + 1, outer.to - 1);
    }
}

/// Trimming text between two character boundaries leaves two.
pub proof fn lemma_trimmed_boundaries(s: Seq<u8>, from: int, to: int)
    requires
        valid_utf8(s),
        0 <= from <= to <= s.len(),
        is_char_boundary(s, from),
        is_char_boundary(s, to),
    ensures
        is_char_boundary(s, trimmed(s, from, to).from),
        is_char_boundary(s, trimmed(s, from, to).to),
        from <= trimmed(s, from, to).from <= trimmed(s, from, to).to <= to,
{
    let head = s.take(to);
    lemma_scan(head, from, Stop::NonWhitespace);
    let start = scan(head, from, Stop::NonWhitespace);
    if from < start {
        assert(head[start - 1] == s[start - 1]);
        assert(!Stop::NonWhitespace.spec_stops_at(head[start - 1]));
        lemma_boundary_after_ascii(s, start - 1);
    }
    lemma_trim_end(s, start, to);
    lemma_trim_end_boundary(s, start, to);
}

/// Dropping whitespace at the end of text that ends on a character boundary
/// leaves an end that is one too.
pub proof fn lemma_trim_end_boundary(s: Seq<u8>, from: int, to: int)
    requires
        valid_utf8(s),
        0 <= from <= to <= s.len(),
        is_char_boundary(s, from),
        is_char_boundary(s, to),
    ensures
        is_char_boundary(s, trim_end(s, from, to)),
    decreases to - from,
{
    if to > from && is_whitespace(s[to - 1]) {
        lemma_boundary_at_ascii(s, to - 1);
        lemma_trim_end_boundary(s, from, to - 1);
    }
}

} // verus!
