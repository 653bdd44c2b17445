//! The typed value of one token: a quoted string, a boolean, a number whose
//! conversion is left to the caller, or nothing at all for a flag.

use crate::bytes::DOUBLE_QUOTE;
use crate::text::{lemma_ascii_is_text, utf8_text};
use std::str::FromStr;
use vstd::prelude::*;
use vstd::slice::slice_subrange;
use vstd::string::*;
use vstd::utf8::*;

verus! {

/// What an [`AttributeValue`] holds, text taken as its bytes.
pub enum ValueModel {
    /// The text between the quotes.
    Str(Seq<u8>),
    /// `true` or `false`.
    Boolean(bool),
    /// The token as it was written.
    Number(Seq<u8>),
    /// The key is a flag.
    NoValue,
}

/// The token `true`.
pub open spec fn true_token() -> Seq<u8> {
    seq![0x74u8, 0x72u8, 0x75u8, 0x65u8]
}

/// The token `false`.
pub open spec fn false_token() -> Seq<u8> {
    seq![0x66u8, 0x61u8, 0x6cu8, 0x73u8, 0x65u8]
}

/// A token is a string when its first byte is `"`.
pub open spec fn is_string_token(token: Seq<u8>) -> bool {
    token.len() > 0 && token[0] == DOUBLE_QUOTE
}

/// The part of a token that its value keeps: a string loses its first and
/// its last byte, every other token is kept whole.
pub open spec fn retained(token: Seq<u8>) -> Seq<u8> {
    if is_string_token(token) {
        token.subrange(1, token.len() - 1)
    } else {
        token
    }
}

/// The value of a token. Only the spelling decides: a token that starts with
/// `"` is a string, the tokens `true` and `false` are booleans, and whatever
/// else is written is a number.
pub open spec fn classify(token: Seq<u8>) -> ValueModel {
    if is_string_token(token) {
        ValueModel::Str(retained(token))
    } else if token == true_token() {
        ValueModel::Boolean(true)
    } else if token == false_token() {
        ValueModel::Boolean(false)
    } else {
        ValueModel::Number(token)
    }
}

/// The text that a typed value keeps of its token: that of a string or a
/// number, the spelling of a boolean, and none for a flag.
pub open spec fn kept_text(value: ValueModel) -> Seq<u8> {
    match value {
        ValueModel::Str(text) => text,
        ValueModel::Boolean(b) => if b {
            true_token()
        } else {
            false_token()
        },
        ValueModel::Number(text) => text,
        ValueModel::NoValue => Seq::empty(),
    }
}

/// The tokens that [`AttributeValue::parse`] takes: not empty, long enough to
/// lose both quotes where it is a string, and text in the part that is kept.
pub open spec fn is_token(token: Seq<u8>) -> bool {
    &&& token.len() > 0
    &&& is_string_token(token) ==> token.len() >= 2
    &&& valid_utf8(retained(token))
}

/// The name of a kind of value, as the failure messages spell it.
pub open spec fn kind_name(value: ValueModel) -> Seq<char> {
    match value {
        ValueModel::Str(_) => "string"@,
        ValueModel::Boolean(_) => "boolean"@,
        ValueModel::Number(_) => "number"@,
        ValueModel::NoValue => "none"@,
    }
}

/// The message of a type mismatch: the kind that was asked for and the kind
/// that was found.
pub open spec fn type_mismatch_message(expected: Seq<char>, found: Seq<char>) -> Seq<char> {
    "Invalid parameter type. Expected "@ + expected + " - found type: "@ + found
}

/// The message of a number that the asked-for type could not take.
pub open spec fn parse_error_message(text: Seq<char>) -> Seq<char> {
    "Can not parse value: "@ + text
}

/// What reading a value as a string gives: its text, or a type mismatch.
pub open spec fn string_reading(value: ValueModel) -> Result<Seq<u8>, Seq<char>> {
    match value {
        ValueModel::Str(text) => Ok(text),
        _ => Err(type_mismatch_message("string"@, kind_name(value))),
    }
}

/// What reading a value as a boolean gives: the boolean, or a type mismatch.
pub open spec fn bool_reading(value: ValueModel) -> Result<bool, Seq<char>> {
    match value {
        ValueModel::Boolean(b) => Ok(b),
        _ => Err(type_mismatch_message("bool"@, kind_name(value))),
    }
}

/// What reading a value as a number gives before any conversion: the text
/// to convert, or a type mismatch.
pub open spec fn number_reading(value: ValueModel) -> Result<Seq<u8>, Seq<char>> {
    match value {
        ValueModel::Number(text) => Ok(text),
        _ => Err(type_mismatch_message("number"@, kind_name(value))),
    }
}

/// The typed value of one token. Text is borrowed from the input.
#[derive(Clone, Copy, Debug)]
pub enum AttributeValue<'s> {
    /// A quoted string, without its quotes.
    Str(&'s str),
    /// `true` or `false`.
    Boolean(bool),
    /// Any other token, as it was written.
    Number(&'s str),
    /// No value: the key is a flag.
    NoValue,
}

impl<'s> View for AttributeValue<'s> {
    type V = ValueModel;

    open spec fn view(&self) -> ValueModel {
        match *self {
            AttributeValue::Str(text) => ValueModel::Str(text.spec_bytes()),
            AttributeValue::Boolean(b) => ValueModel::Boolean(b),
            AttributeValue::Number(text) => ValueModel::Number(text.spec_bytes()),
            AttributeValue::NoValue => ValueModel::NoValue,
        }
    }
}

/// Converts `text` to the type the caller asked for.
///
/// Trusted: calls `FromStr::from_str` of `T`. Nothing is claimed of the
/// result, which is up to the implementation of `T`.
#[verifier::external_body]
pub(crate) fn convert_text<T: FromStr>(text: &str) -> (r: Option<T>) {
    match T::from_str(text) {
        Ok(value) => Some(value),
        Err(_) => None,
    }
}

/// Whether `src` is the token `true`.
fn is_true_token(src: &[u8]) -> (r: bool)
    ensures
        r == (src@ == true_token()),
{
    let r = src.len() == 4 && src[0] == 0x74 && src[1] == 0x72 && src[2] == 0x75 && src[3] == 0x65;
    assert(r ==> src@ =~= true_token());
    r
}

/// Whether `src` is the token `false`.
fn is_false_token(src: &[u8]) -> (r: bool)
    ensures
        r == (src@ == false_token()),
{
    let r = src.len() == 5 && src[0] == 0x66 && src[1] == 0x61 && src[2] == 0x6c && src[3] == 0x73
        && src[4] == 0x65;
    assert(r ==> src@ =~= false_token());
    r
}

/// The message of a type mismatch.
fn type_mismatch(expected: &str, found: &str) -> (r: String)
    ensures
        r@ == type_mismatch_message(expected@, found@),
{
    "Invalid parameter type. Expected ".to_owned().concat(expected).concat(" - found type: ").concat(
        found,
    )
}

/// The outcome of a conversion: the converted number, or the message that
/// names the text that could not be converted.
pub fn number_result<T>(converted: Option<T>, text: &str) -> (r: Result<T, String>)
    ensures
        match converted {
            Some(value) => r == Ok::<T, String>(value),
            None => r matches Err(message) && message@ == parse_error_message(text@),
        },
{
    match converted {
        Some(value) => Ok(value),
        None => Err("Can not parse value: ".to_owned().concat(text)),
    }
}

impl<'s> AttributeValue<'s> {
    /// Classifies the token `src`; `None` where `src` is no token.
    pub fn try_parse(src: &'s [u8]) -> (r: Option<Self>)
        ensures
            match r {
                Some(value) => is_token(src@) && value@ == classify(src@),
                None => !is_token(src@),
            },
    {
        if src.len() == 0 {
            return None;
        }
        if src[0] == DOUBLE_QUOTE {
            if src.len() < 2 {
                return None;
            }
            match utf8_text(slice_subrange(src, 1, src.len() - 1)) {
                Some(text) => Some(AttributeValue::Str(text)),
                None => None,
            }
        } else if is_true_token(src) {
            proof {
                lemma_ascii_is_text(true_token());
            }
            Some(AttributeValue::Boolean(true))
        } else if is_false_token(src) {
            proof {
                lemma_ascii_is_text(false_token());
            }
            Some(AttributeValue::Boolean(false))
        } else {
            match utf8_text(src) {
                Some(text) => Some(AttributeValue::Number(text)),
                None => None,
            }
        }
    }

    /// Classifies the token `src`.
    pub fn parse(src: &'s [u8]) -> (r: Self)
        requires
            is_token(src@),
        ensures
            r@ == classify(src@),
    {
        Self::try_parse(src).unwrap()
    }

    /// The name of the kind of this value.
    pub fn type_as_str(&self) -> (r: &'static str)
        ensures
            r@ == kind_name(self@),
    {
        match self {
            AttributeValue::Str(_) => "string",
            AttributeValue::Boolean(_) => "boolean",
            AttributeValue::Number(_) => "number",
            AttributeValue::NoValue => "none",
        }
    }

    /// The text of a string; a type mismatch for every other kind.
    pub fn as_string(&self) -> (r: Result<&'s str, String>)
        ensures
            match *self {
                AttributeValue::Str(text) => r == Ok::<&str, String>(text),
                _ => r is Err,
            },
            match string_reading(self@) {
                Ok(bytes) => r matches Ok(text) && text.spec_bytes() == bytes,
                Err(reason) => r matches Err(message) && message@ == reason,
            },
    {
        match self {
            AttributeValue::Str(text) => Ok(*text),
            _ => Err(type_mismatch("string", self.type_as_str())),
        }
    }

    /// The number, converted to the type that the caller asks for. A type
    /// mismatch for every other kind; a parse error where the conversion
    /// does not take the text.
    pub fn as_type<TFromStr: FromStr>(&self) -> (r: Result<TFromStr, String>)
        ensures
            match *self {
                AttributeValue::Number(text) => r matches Err(message) ==> message@
                    == parse_error_message(text@),
                _ => r is Err,
            },
            number_reading(self@) matches Err(reason) ==> r matches Err(message) && message@
                == reason,
    {
        match self {
            AttributeValue::Number(text) => number_result(convert_text::<TFromStr>(text), text),
            _ => Err(type_mismatch("number", self.type_as_str())),
        }
    }

    /// The boolean; a type mismatch for every other kind.
    pub fn as_bool(&self) -> (r: Result<bool, String>)
        ensures
            match bool_reading(self@) {
                Ok(b) => r == Ok::<bool, String>(b),
                Err(reason) => r matches Err(message) && message@ == reason,
            },
    {
        match self {
            AttributeValue::Boolean(value) => Ok(*value),
            _ => Err(type_mismatch("bool", self.type_as_str())),
        }
    }

    /// Whether this is the value of a flag.
    pub fn is_none(&self) -> (r: bool)
        ensures
            r == (self@ is NoValue),
    {
        match self {
            AttributeValue::NoValue => true,
            _ => false,
        }
    }
}

} // verus!
