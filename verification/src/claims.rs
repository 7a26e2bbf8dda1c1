//! The claims of a token: an arbitrary JSON value, parsed and written by
//! `serde_json`.
//!
//! A value is known to the contracts of this crate by its compact JSON text.

use crate::cli::JsonFormat;
use crate::error::Error;
use colored_json::ColoredFormatter;
use serde::Serialize;
use serde_json::ser::{CompactFormatter, PrettyFormatter};
use serde_json::Error as JsonError;
use vstd::prelude::*;

verus! {

/// `serde_json::Value`, carried through and never looked into.
#[verifier::external_type_specification]
#[verifier::external_body]
pub struct ExValue(serde_json::Value);

/// `serde_json::Error`, carried through and never looked into.
#[verifier::external_type_specification]
#[verifier::external_body]
pub struct ExJsonError(JsonError);

/// The compact JSON text of `value`: what `serde_json` writes for it with
/// no whitespace between tokens.
pub uninterp spec fn json_text(value: serde_json::Value) -> Seq<u8>;

/// The compact JSON text of the value that `input` parses to, if `input` is
/// JSON text.
pub uninterp spec fn parsed_text(input: Seq<u8>) -> Option<Seq<u8>>;

/// The indented text of the value whose compact text is `text`. The
/// compact text settles the value, and so this text.
pub uninterp spec fn pretty_text(text: Seq<u8>) -> Seq<u8>;

/// The compact text of the value whose compact text is `text`, with ANSI
/// colors around its tokens.
pub uninterp spec fn colored_text(text: Seq<u8>) -> Seq<u8>;

/// The indented text of the value whose compact text is `text`, with ANSI
/// colors around its tokens.
pub uninterp spec fn colored_pretty_text(text: Seq<u8>) -> Seq<u8>;

/// The payload of a token: any JSON value, of any shape.
#[derive(Debug, PartialEq)]
pub struct Claims {
    value: serde_json::Value,
}

impl View for Claims {
    type V = Seq<u8>;

    /// The compact JSON text of the claims.
    open spec fn view(&self) -> Seq<u8> {
        json_text(self.value())
    }
}

impl Claims {
    /// The JSON value held.
    pub closed spec fn value(&self) -> serde_json::Value {
        self.value
    }

    /// Takes `value` as claims.
    pub fn new(value: serde_json::Value) -> (claims: Claims)
        ensures
            claims.value() == value,
    {
        Claims { value }
    }

    /// Gives the JSON value back.
    pub fn into_value(self) -> (value: serde_json::Value)
        ensures
            value == self.value(),
    {
        self.value
    }

    /// Parses JSON text. Any JSON value is accepted, not only an object.
    pub fn parse(input: &[u8]) -> (r: Result<Claims, Error>)
        ensures
            match r {
                Ok(claims) => parsed_text(input@) == Some(claims@),
                Err(e) => e is Json && parsed_text(input@) is None,
            },
    {
        match from_slice(input) {
            Ok(value) => Ok(Claims { value }),
            Err(e) => Err(Error::Json(e)),
        }
    }

    /// Writes the claims as compact JSON text, the form in which a token
    /// carries them. This always succeeds.
    pub fn to_compact(&self) -> (r: Result<Vec<u8>, Error>)
        ensures
            r matches Ok(text) && text@ == self@,
    {
        match write_compact(&self.value) {
            Ok(text) => Ok(text),
            Err(e) => Err(Error::Json(e)),
        }
    }

    /// Writes the claims as JSON text in the layout `format`, with ANSI
    /// colors if `color` is set. This always succeeds.
    pub fn write(&self, format: &JsonFormat, color: bool) -> (r: Result<Vec<u8>, Error>)
        ensures
            r matches Ok(text) && text@ == body_spec(self@, *format, color),
    {
        let written = match (color, format) {
            (false, JsonFormat::Compact) => write_compact(&self.value),
            (false, JsonFormat::Pretty) => write_pretty(&self.value),
            (true, JsonFormat::Compact) => write_colored(&self.value),
            (true, JsonFormat::Pretty) => write_colored_pretty(&self.value),
        };
        match written {
            Ok(text) => Ok(text),
            Err(e) => Err(Error::Json(e)),
        }
    }
}

/// The JSON text, in the layout `format` and colored or not, of the value
/// whose compact text is `text`.
pub open spec fn body_spec(text: Seq<u8>, format: JsonFormat, color: bool) -> Seq<u8> {
    match (color, format) {
        (false, JsonFormat::Compact) => text,
        (false, JsonFormat::Pretty) => pretty_text(text),
        (true, JsonFormat::Compact) => colored_text(text),
        (true, JsonFormat::Pretty) => colored_pretty_text(text),
    }
}

/// `serde_json::from_slice` at `serde_json::Value`. The outcome depends on
/// the input alone: a value whose compact text is `parsed_text` of the
/// input, or an error where the input is not JSON text.
#[verifier::external_body]
fn from_slice(input: &[u8]) -> (r: Result<serde_json::Value, serde_json::Error>)
    ensures
        match r {
            Ok(value) => parsed_text(input@) == Some(json_text(value)),
            Err(_) => parsed_text(input@) is None,
        },
{
    serde_json::from_slice(input)
}

/// `Serialize::serialize` of a `serde_json::Value` into a
/// `serde_json::Serializer` that writes to a `Vec<u8>` with the
/// `CompactFormatter`. It succeeds on every value: the keys of a value's
/// maps are strings, a float that is not finite is written as `null`, and
/// writing to a vector does not fail. What is written is the compact text of
/// the value.
#[verifier::external_body]
fn write_compact(value: &serde_json::Value) -> (r: Result<Vec<u8>, serde_json::Error>)
    ensures
        r is Ok,
        r matches Ok(text) ==> text@ == json_text(*value),
{
    let mut text = Vec::new();
    let mut serializer = serde_json::Serializer::with_formatter(&mut text, CompactFormatter);
    value.serialize(&mut serializer)?;
    Ok(text)
}

/// `Serialize::serialize` of a `serde_json::Value` into a
/// `serde_json::Serializer` that writes to a `Vec<u8>` with the
/// `PrettyFormatter`. It succeeds on every value, as with the
/// `CompactFormatter`, and what is written depends on the value alone.
#[verifier::external_body]
fn write_pretty(value: &serde_json::Value) -> (r: Result<Vec<u8>, serde_json::Error>)
    ensures
        r is Ok,
        r matches Ok(text) ==> text@ == pretty_text(json_text(*value)),
{
    let mut text = Vec::new();
    let mut serializer = serde_json::Serializer::with_formatter(&mut text, PrettyFormatter::new());
    value.serialize(&mut serializer)?;
    Ok(text)
}

/// `Serialize::serialize` of a `serde_json::Value` into a
/// `serde_json::Serializer` that writes to a `Vec<u8>` with `colored_json`'s
/// `ColoredFormatter` around the `CompactFormatter`. The colors add no way
/// to fail, so it succeeds on every value, and what is written depends on
/// the value alone: no terminal and no environment is asked.
#[verifier::external_body]
fn write_colored(value: &serde_json::Value) -> (r: Result<Vec<u8>, serde_json::Error>)
    ensures
        r is Ok,
        r matches Ok(text) ==> text@ == colored_text(json_text(*value)),
{
    let mut text = Vec::new();
    let formatter = ColoredFormatter::new(CompactFormatter);
    let mut serializer = serde_json::Serializer::with_formatter(&mut text, formatter);
    value.serialize(&mut serializer)?;
    Ok(text)
}

/// `Serialize::serialize` of a `serde_json::Value` into a
/// `serde_json::Serializer` that writes to a `Vec<u8>` with `colored_json`'s
/// `ColoredFormatter` around the `PrettyFormatter`. The colors add no way
/// to fail, so it succeeds on every value, and what is written depends on
/// the value alone: no terminal and no environment is asked.
#[verifier::external_body]
fn write_colored_pretty(value: &serde_json::Value) -> (r: Result<
    Vec<u8>,
    serde_json::Error,
>)
    ensures
        r is Ok,
        r matches Ok(text) ==> text@ == colored_pretty_text(json_text(*value)),
{
    let mut text = Vec::new();
    let formatter = ColoredFormatter::new(PrettyFormatter::new());
    let mut serializer = serde_json::Serializer::with_formatter(&mut text, formatter);
    value.serialize(&mut serializer)?;
    Ok(text)
}

} // verus!
