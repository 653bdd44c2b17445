//! Zero-copy reader for attribute parameter lists such as
//! `(name = "value", amount = 15; flag)` or the bare single value `(">")`.
//!
//! * [`attribute_value`] classifies one token as a string, a boolean or a
//!   number.
//! * [`attribute_fields_parser`] is the tokenizer: it reads a list entry by
//!   entry. What a list means is written down in [`grammar`], over the byte
//!   classes of [`bytes`].
//! * [`attr_params`] is the parameter view: it owns a text, decides once
//!   whether the text is a single value or a list, and answers lookups with
//!   slices of the text, kept as the offsets of [`position`].
//! * [`attributes`] and [`attributes_fields`] store raw parameter texts by
//!   attribute name and read them anew on every lookup.
//! * [`laws`] states what holds of all of them together.
//!
//! Keys and values are handed out as text. Input that is not UTF-8 is read
//! up to the first entry whose key or value is not text.

pub mod attr_params;
pub mod attribute_fields_parser;
pub mod attribute_value;
pub mod attributes;
pub mod attributes_fields;
pub mod bytes;
pub mod grammar;
pub mod laws;
pub mod position;
pub mod text;

pub use attr_params::{is_single_value, AttributeParams, ParamValue, ParamsType};
pub use attribute_fields_parser::{AttrParamsParser, TokenResult};
pub use attribute_value::AttributeValue;
pub use attributes::Attributes;
pub use attributes_fields::AttributeFields;
pub use bytes::is_params_separator;
pub use position::Position;
