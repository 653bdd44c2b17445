//! One attribute: its raw parameter text, if it has any, and typed lookups
//! that read the text anew on every call.

use crate::attribute_fields_parser::AttrParamsParser;
use crate::attribute_value::{parse_error_message, AttributeValue, ValueModel};
use crate::grammar::{first_value, pairs};
use crate::text::{lemma_same_text_same_bytes, same_text};
use std::str::FromStr;
use vstd::prelude::*;
use vstd::string::*;
use vstd::utf8::*;

verus! {

/// The value that the parameter text `content` gives the key `name`: that of
/// the first pair with this key; nothing where there is no text.
pub open spec fn param_of(content: Option<Seq<u8>>, name: Seq<u8>) -> Option<ValueModel> {
    match content {
        Some(bytes) => first_value(pairs(bytes), name),
        None => None,
    }
}

/// The parameter text of one attribute. A flag attribute has none.
#[derive(Debug)]
pub struct AttributeFields {
    pub content: Option<Vec<u8>>,
}

impl AttributeFields {
    /// The bytes of the parameter text.
    pub open spec fn bytes(&self) -> Option<Seq<u8>> {
        match self.content {
            Some(bytes) => Some(bytes@),
            None => None,
        }
    }

    /// The value of the parameter `name`.
    pub open spec fn param(&self, name: Seq<u8>) -> Option<ValueModel> {
        param_of(self.bytes(), name)
    }

    /// An attribute with the parameter text `content`.
    pub fn new(content: Option<Vec<u8>>) -> (r: Self)
        ensures
            r.content == content,
    {
        Self { content }
    }

    /// The value of the first parameter whose key is `param_name`.
    pub fn get_param<'s>(&'s self, param_name: &str) -> (r: Option<AttributeValue<'s>>)
        ensures
            match r {
                Some(value) => self.param(param_name.spec_bytes()) == Some(value@),
                None => self.param(param_name.spec_bytes()) is None,
            },
    {
        let content = match &self.content {
            Some(content) => content,
            None => {
                return None;
            },
        };
        let mut parser = AttrParamsParser::new(content.as_slice());
        let ghost all = parser.remaining();
        let mut item = parser.next();
        proof {
            assert(all == pairs(content@));
            if item is Some {
                let (key, value) = item->0;
                assert(all =~= seq![(key.spec_bytes(), value@)] + parser.remaining());
            } else {
                assert(all =~= Seq::empty());
            }
        }
        while item.is_some()
            invariant
                item is None ==> parser.remaining().len() == 0,
                self.param(param_name.spec_bytes()) == first_value(
                    match item {
                        Some((key, value)) => seq![(key.spec_bytes(), value@)] + parser.remaining(),
                        None => Seq::empty(),
                    },
                    param_name.spec_bytes(),
                ),
            decreases parser.remaining().len() + (if item is Some { 1int } else { 0int }),
        {
            let (key, value) = item.unwrap();
            proof {
                lemma_same_text_same_bytes(key@, param_name@);
                let now = seq![(key.spec_bytes(), value@)] + parser.remaining();
                assert(now[0] == (key.spec_bytes(), value@));
                assert(now.drop_first() =~= parser.remaining());
            }
            if same_text(key, param_name) {
                return Some(value);
            }
            let ghost before = parser.remaining();
            item = parser.next();
            proof {
                if item is Some {
                    let (next_key, next_value) = item->0;
                    assert(before =~= seq![(next_key.spec_bytes(), next_value@)]
                        + parser.remaining());
                } else {
                    assert(before =~= Seq::empty());
                }
            }
        }
        None
    }

    /// The boolean parameter `param_name`; `None` where the attribute has no
    /// such parameter. The parameter must not be of another kind.
    pub fn get_bool(&self, param_name: &str) -> (r: Option<bool>)
        requires
            self.param(param_name.spec_bytes()) matches Some(value) ==> value is Boolean,
        ensures
            r == match self.param(param_name.spec_bytes()) {
                Some(ValueModel::Boolean(b)) => Some(b),
                _ => None,
            },
    {
        match self.get_param(param_name) {
            Some(value) => Some(value.as_bool().unwrap()),
            None => None,
        }
    }

    /// The number parameter `param_name`, converted to the type that the
    /// caller asks for, or the message of the conversion that failed; `None`
    /// where the attribute has no such parameter. The parameter must not be
    /// of another kind.
    pub fn get_as_type<TFromStr: FromStr>(&self, param_name: &str) -> (r: Option<
        Result<TFromStr, String>,
    >)
        requires
            self.param(param_name.spec_bytes()) matches Some(value) ==> value is Number,
        ensures
            r is None <==> self.param(param_name.spec_bytes()) is None,
            r matches Some(Err(message)) ==> self.param(param_name.spec_bytes()) matches Some(
                ValueModel::Number(text),
            ) && message@ == parse_error_message(decode_utf8(text)),
    {
        match self.get_param(param_name) {
            Some(value) => {
                proof {
                    if let AttributeValue::Number(text) = value {
                        encode_utf8_decode_utf8(text@);
                    }
                }
                Some(value.as_type::<TFromStr>())
            },
            None => None,
        }
    }

    /// The string parameter `param_name`; `None` where the attribute has no
    /// such parameter. The parameter must not be of another kind.
    pub fn get_as_string<'s>(&'s self, param_name: &str) -> (r: Option<&'s str>)
        requires
            self.param(param_name.spec_bytes()) matches Some(value) ==> value is Str,
        ensures
            match self.param(param_name.spec_bytes()) {
                Some(ValueModel::Str(text)) => r matches Some(found) && found.spec_bytes() == text,
                _ => r is None,
            },
    {
        match self.get_param(param_name) {
            Some(value) => Some(value.as_string().unwrap()),
            None => None,
        }
    }
}

} // verus!
