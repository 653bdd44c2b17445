//! Byte classes of the parameter syntax and the forward scan built on them.
//!
//! Every lexical rule of the tokenizer is a search for the first byte of some
//! class at or after a position. The classes are the variants of [`Stop`]; the
//! search is [`scan`] in specifications and [`scan_from`] in executable code.

use vstd::prelude::*;

verus! {

/// `(`: tolerated in front of a key.
pub const OPEN_PAREN: u8 = 0x28;

/// `)`: ends the parameter list.
pub const CLOSE_PAREN: u8 = 0x29;

/// `*`: tolerated in front of a key.
pub const ASTERISK: u8 = 0x2a;

/// `,`: separates two parameters.
pub const COMMA: u8 = 0x2c;

/// `;`: separates two parameters.
pub const SEMICOLON: u8 = 0x3b;

/// `=`: stands between a key and its value.
pub const EQUALS: u8 = 0x3d;

/// `:`: stands between a key and its value, as `=` does.
pub const COLON: u8 = 0x3a;

/// `"`: opens and closes a quoted value; the only quote that makes a string.
pub const DOUBLE_QUOTE: u8 = 0x22;

/// `'`: opens and closes a quoted value.
pub const SINGLE_QUOTE: u8 = 0x27;

/// The plain space, the one whitespace byte that ends an unquoted value.
pub const SPACE: u8 = 0x20;

/// Whitespace is every byte up to and including the space.
pub open spec fn is_whitespace(b: u8) -> bool {
    b <= SPACE
}

/// A parameter separator: `,` or `;`.
pub open spec fn spec_is_params_separator(b: u8) -> bool {
    b == COMMA || b == SEMICOLON
}

/// The sign between a key and its value: `=` or `:`.
pub open spec fn is_assignment(b: u8) -> bool {
    b == EQUALS || b == COLON
}

/// A byte that may open a quoted value: `"` or `'`.
pub open spec fn is_quote(b: u8) -> bool {
    b == DOUBLE_QUOTE || b == SINGLE_QUOTE
}

/// Bytes passed over while looking for the start of a key.
pub open spec fn is_key_padding(b: u8) -> bool {
    b == OPEN_PAREN || b == ASTERISK || is_whitespace(b) || spec_is_params_separator(b)
}

/// Bytes that end a key (the key stops in front of them).
pub open spec fn ends_key(b: u8) -> bool {
    spec_is_params_separator(b) || is_assignment(b) || is_whitespace(b) || b == CLOSE_PAREN
}

/// Bytes passed over between a key and its value.
pub open spec fn is_value_padding(b: u8) -> bool {
    is_assignment(b) || is_whitespace(b)
}

/// Bytes that end an unquoted value (the value stops in front of them).
pub open spec fn ends_bare_value(b: u8) -> bool {
    b == SPACE || spec_is_params_separator(b) || b == CLOSE_PAREN
}

/// What a scan is looking for.
#[derive(Clone, Copy, Debug)]
pub enum Stop {
    /// The first byte of a key, or the `)` that ends the list.
    KeyStart,
    /// The byte behind a key.
    KeyEnd,
    /// The first byte of a value, or the separator or `)` that makes the key a flag.
    ValueStart,
    /// The byte behind an unquoted value.
    BareValueEnd,
    /// The quote that closes a quoted value.
    ClosingQuote(u8),
    /// The first whitespace.
    Whitespace,
    /// The first byte that is not whitespace.
    NonWhitespace,
}

impl Stop {
    /// Whether a scan for `self` stops at the byte `b`.
    pub open spec fn spec_stops_at(self, b: u8) -> bool {
        match self {
            Stop::KeyStart => !is_key_padding(b),
            Stop::KeyEnd => ends_key(b),
            Stop::ValueStart => !is_value_padding(b),
            Stop::BareValueEnd => ends_bare_value(b),
            Stop::ClosingQuote(q) => b == q,
            Stop::Whitespace => is_whitespace(b),
            Stop::NonWhitespace => !is_whitespace(b),
        }
    }

    /// Whether a scan for `self` stops at the byte `b`.
    #[verifier::when_used_as_spec(spec_stops_at)]
    pub fn stops_at(self, b: u8) -> (r: bool)
        ensures
            r == self.spec_stops_at(b),
    {
        match self {
            Stop::KeyStart => !(b == OPEN_PAREN || b == ASTERISK || b <= SPACE
                || is_params_separator(b)),
            Stop::KeyEnd => is_params_separator(b) || b == EQUALS || b == COLON || b <= SPACE || b
                == CLOSE_PAREN,
            Stop::ValueStart => !(b == EQUALS || b == COLON || b <= SPACE),
            Stop::BareValueEnd => b == SPACE || is_params_separator(b) || b == CLOSE_PAREN,
            Stop::ClosingQuote(q) => b == q,
            Stop::Whitespace => b <= SPACE,
            Stop::NonWhitespace => b > SPACE,
        }
    }
}

/// Tells whether `b` separates two parameters.
#[verifier::when_used_as_spec(spec_is_params_separator)]
pub fn is_params_separator(b: u8) -> (r: bool)
    ensures
        r == spec_is_params_separator(b),
{
    b == COMMA || b == SEMICOLON
}

/// The first position at or after `from` whose byte stops a scan for `stop`;
/// the length of `s` where there is none.
pub open spec fn scan(s: Seq<u8>, from: int, stop: Stop) -> int
    decreases s.len() - from,
{
    if from < 0 || from >= s.len() {
        s.len() as int
    } else if stop.spec_stops_at(s[from]) {
        from
    } else {
        scan(s, from + 1, stop)
    }
}

/// A scan ends inside the input or at its end, passes only bytes that do not
/// stop it, and ends on a byte that does.
pub proof fn lemma_scan(s: Seq<u8>, from: int, stop: Stop)
    requires
        0 <= from <= s.len(),
    ensures
        from <= scan(s, from, stop) <= s.len(),
        forall|j: int| from <= j < scan(s, from, stop) ==> !stop.spec_stops_at(#[trigger] s[j]),
        scan(s, from, stop) < s.len() ==> stop.spec_stops_at(s[scan(s, from, stop)]),
    decreases s.len() - from,
{
    if from < s.len() && !stop.spec_stops_at(s[from]) {
        lemma_scan(s, from + 1, stop);
    }
}

/// A position that a scan could end on is the one it ends on.
pub proof fn lemma_scan_is(s: Seq<u8>, from: int, stop: Stop, at: int)
    requires
        0 <= from <= at <= s.len(),
        forall|j: int| from <= j < at ==> !stop.spec_stops_at(#[trigger] s[j]),
        at < s.len() ==> stop.spec_stops_at(s[at]),
    ensures
        scan(s, from, stop) == at,
    decreases at - from,
{
    if from < at {
        lemma_scan_is(s, from + 1, stop, at);
    }
}

/// Scans `line` from `from` for the first byte that stops `stop`.
pub fn scan_from(line: &[u8], from: usize, stop: Stop) -> (at: usize)
    requires
        from <= line@.len(),
    ensures
        at == scan(line@, from as int, stop),
        from <= at <= line@.len(),
{
    let mut i: usize = from;
    while i < line.len() && !stop.stops_at(line[i])
        invariant
            from <= i <= line@.len(),
            forall|j: int| from <= j < i ==> !stop.spec_stops_at(#[trigger] line@[j]),
        decreases line@.len() - i,
    {
        i += 1;
    }
    proof {
        lemma_scan_is(line@, from as int, stop, i as int);
    }
    i
}

} // verus!
