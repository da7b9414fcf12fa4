//! The parts of reading the site configuration that work on plain values:
//! which text the configuration is read from, the keys under which a site's
//! configured functions are found, and reading a site's answer as JSON
//! before the configured parser gets it.

use vstd::prelude::*;

use serde_json::Value;
use std::string::FromUtf8Error;
use vstd::utf8::{decode_utf8, valid_utf8};

verus! {

/// The error of `String::from_utf8`: the bytes are not UTF-8.
#[verifier::external_type_specification]
#[verifier::external_body]
pub struct ExFromUtf8Error(FromUtf8Error);

/// Calls `String::from_utf8`, which, as its documentation says, returns
/// the string of `bytes` when they are UTF-8 and an error when they are
/// not.
#[verifier::external_body]
fn string_from_utf8(bytes: Vec<u8>) -> (r: Result<String, FromUtf8Error>)
    ensures
        match r {
            Ok(s) => valid_utf8(bytes@) && s@ == decode_utf8(bytes@),
            Err(_) => !valid_utf8(bytes@),
        },
{
    String::from_utf8(bytes)
}

/// Where the configuration's text comes from.
#[derive(Debug)]
pub enum ConfigSource {
    /// The configuration file is missing or empty: the default text is
    /// written to it and used.
    Default,
    /// The file's text.
    Text(String),
    /// The file is not UTF-8.
    NotUtf8(FromUtf8Error),
}

/// Decides where the configuration's text comes from, given the file's
/// bytes, or `None` when the file does not exist.
pub fn choose_config_source(contents: Option<Vec<u8>>) -> (r: ConfigSource)
    ensures
        match contents {
            None => r is Default,
            Some(bytes) => if bytes@.len() == 0 {
                r is Default
            } else if valid_utf8(bytes@) {
                r matches ConfigSource::Text(s) && s@ == decode_utf8(bytes@)
            } else {
                r is NotUtf8
            },
        },
{
    match contents {
        None => ConfigSource::Default,
        Some(bytes) => {
            if bytes.len() == 0 {
                ConfigSource::Default
            } else {
                match string_from_utf8(bytes) {
                    Ok(s) => ConfigSource::Text(s),
                    Err(e) => ConfigSource::NotUtf8(e),
                }
            }
        },
    }
}

/// The key of a site's configured function: `sites.<domain>.<function>`.
pub open spec fn function_key(domain: Seq<char>, function: Seq<char>) -> Seq<char> {
    "sites."@ + domain + "."@ + function
}

/// The key under which the function `function` of the site `domain` is
/// cached.
pub fn site_function_key(domain: &str, function: &str) -> (r: String)
    ensures
        r@ == function_key(domain@, function@),
{
    let mut r = "sites.".to_owned();
    r.append(domain);
    r.append(".");
    r.append(function);
    r
}

/// Whether `text` is one JSON value, as `serde_json::from_str` reads it.
pub uninterp spec fn json_text_valid(text: Seq<char>) -> bool;

/// The JSON value `serde_json::from_str` reads from `text`, where the text
/// is valid.
pub uninterp spec fn json_value(text: Seq<char>) -> Value;

/// Calls `serde_json::from_str` to read `text` as a JSON value. The
/// contract names when it succeeds (`json_text_valid` of the text) and the
/// value it reads (`json_value` of the text); how JSON is read is not
/// written out.
#[verifier::external_body]
fn value_from_json(text: &str) -> (r: Result<Value, serde_json::Error>)
    ensures
        r is Ok <==> json_text_valid(text@),
        r matches Ok(v) ==> v == json_value(text@),
{
    serde_json::from_str(text)
}

/// Reads the text of a site's answer as a JSON value, or gives the error
/// that the text is not JSON.
pub fn read_site_answer(text: &str) -> (r: Result<Value, serde_json::Error>)
    ensures
        r is Ok <==> json_text_valid(text@),
        r matches Ok(v) ==> v == json_value(text@),
{
    value_from_json(text)
}

} // verus!
