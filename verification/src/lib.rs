//! Recognition of `media-value(...)` expressions embedded in free-form text.
//!
//! `parse_property` takes a text and gives either its template, with the content of
//! every segment copied out, or the message for the first error. The module `parsing`
//! holds the scanner, the parser and the template's types.

use vstd::prelude::*;

pub mod parsing;

use parsing::data::{error_text, ParseError, ResponsiveTemplate};
use parsing::{outcome, parse_property_bookmark, parse_resolved};

verus! {

/// How a parse ended: with the template, or with the message for its error.
pub struct ParseResult(pub Result<ResponsiveTemplate<String>, String>);

/// Whether the parse gave a template.
pub fn did_parse_property(result: &ParseResult) -> (r: bool)
    ensures
        r == result.0 is Ok,
{
    match result {
        ParseResult(Err(_)) => false,
        ParseResult(Ok(_)) => true,
    }
}

/// The message of a parse that gave no template.
pub fn parse_property_failure(result: &ParseResult) -> (r: Option<&str>)
    ensures
        match result.0 {
            Ok(_) => r is None,
            Err(message) => r matches Some(text) && text@ == message@,
        },
{
    match result {
        ParseResult(Err(e)) => Some(e.as_str()),
        ParseResult(Ok(_)) => None,
    }
}

/// Parses `input` and resolves the template against it; an error comes back as
/// its message, which names the position and repeats the text.
pub fn parse_property(input: &str) -> (r: ParseResult)
    ensures
        match parse_resolved(input@) {
            Ok(t) => r.0 matches Ok(template) && template@ == t,
            Err(e) => r.0 matches Err(message) && message@ == error_text(e, input@),
        },
{
    match run_parse(input) {
        Ok(template) => ParseResult(Ok(template)),
        Err(e) => ParseResult(Err(e.to_string(input))),
    }
}

/// Parses `input` and resolves the template against it, with the content copied out.
pub fn run_parse(input: &str) -> (r: Result<ResponsiveTemplate<String>, ParseError>)
    ensures
        outcome(r) == parse_resolved(input@),
{
    let book_marked = match parse_property_bookmark(input) {
        Ok(t) => t,
        Err(e) => {
            return Err(e);
        },
    };
    match book_marked.checkout_owned(input) {
        Ok(owned_ast) => Ok(owned_ast),
        Err(e) => Err(ParseError::from(e)),
    }
}

} // verus!
