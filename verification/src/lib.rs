//! A wiki markup parser: a page is turned into HTML line by line, with
//! inline markup, block plugins (`#accordion`, `#calendar2`, `#comment`,
//! `#include`, `#ls`, `#marquee`, ...) and page constants and variables.
pub mod inline;
pub mod matching;
pub mod numeric;
pub mod parser;
pub mod parser_options;
pub mod plugins;
pub mod text;

pub use plugins::accordion;
pub use plugins::calendar;
pub use plugins::comment::comment;
pub use plugins::comment::rtcomment;
pub use plugins::ls;
pub use plugins::marquee;
pub use plugins::page_include;
pub use plugins::variable;

use inline::binary::{from_utf8_lossy, utf8_lossy};
use parser::{parse, parse_spec, try_parse};
use parser_options::{default_options, ParseMode, ParserOptions};
use text::opt_view;
use vstd::prelude::*;
use vstd::utf8::{decode_utf8, encode_utf8, valid_utf8};

verus! {

/// The options of a page read in binary mode, every piece of syntax enabled.
pub open spec fn binary_options() -> ParserOptions {
    ParserOptions { mode: ParseMode::Binary, ..default_options() }
}

/// Parses a page given as raw bytes: its text is the bytes decoded as
/// UTF-8 (invalid sequences replaced; valid UTF-8 is decoded as it is), or
/// `None` where the page cannot be parsed (see `parse_spec`).
pub fn try_parse_wiki_input(input: &[u8], wiki_slug: &str, page_slug: &str, options: &ParserOptions) -> (r: Option<String>)
    ensures
        opt_view(r) == parse_spec(utf8_lossy(input@), input@, wiki_slug@, page_slug@, *options),
        valid_utf8(input@) ==> opt_view(r) == parse_spec(decode_utf8(input@), input@, wiki_slug@, page_slug@, *options),
{
    let text = from_utf8_lossy(input);
    match try_parse(text.as_str(), input, wiki_slug, page_slug, options) {
        Some(_) => Some(parse_wiki_input(input, wiki_slug, page_slug, options)),
        None => None,
    }
}

/// Parses a page given as raw bytes, whose text is the bytes decoded as
/// UTF-8 (invalid sequences replaced).
pub fn parse_wiki_input(input: &[u8], wiki_slug: &str, page_slug: &str, options: &ParserOptions) -> (r: String)
    requires
        parse_spec(utf8_lossy(input@), input@, wiki_slug@, page_slug@, *options) is Some,
    ensures
        r@ == parse_spec(utf8_lossy(input@), input@, wiki_slug@, page_slug@, *options).unwrap(),
        valid_utf8(input@) ==> r@ == parse_spec(decode_utf8(input@), input@, wiki_slug@, page_slug@, *options).unwrap(),
{
    let text = from_utf8_lossy(input);
    parse(text.as_str(), input, wiki_slug, page_slug, options)
}

/// Parses a page with every piece of syntax enabled, or `None` where the
/// page cannot be parsed.
pub fn try_parse_wiki(input: &str, wiki_slug: &str, page_slug: &str) -> (r: Option<String>)
    ensures
        opt_view(r) == parse_spec(input@, encode_utf8(input@), wiki_slug@, page_slug@, default_options()),
{
    let options = ParserOptions::default();
    try_parse(input, input.as_bytes(), wiki_slug, page_slug, &options)
}

/// Parses a page with every piece of syntax enabled.
pub fn parse_wiki(input: &str, wiki_slug: &str, page_slug: &str) -> (r: String)
    requires
        parse_spec(input@, encode_utf8(input@), wiki_slug@, page_slug@, default_options()) is Some,
    ensures
        r@ == parse_spec(input@, encode_utf8(input@), wiki_slug@, page_slug@, default_options()).unwrap(),
{
    let options = ParserOptions::default();
    parse(input, input.as_bytes(), wiki_slug, page_slug, &options)
}

/// Parses a page given as raw bytes in binary mode, or `None` where the
/// page cannot be parsed.
pub fn try_parse_wiki_binary(input: &[u8], wiki_slug: &str, page_slug: &str) -> (r: Option<String>)
    ensures
        opt_view(r) == parse_spec(utf8_lossy(input@), input@, wiki_slug@, page_slug@, binary_options()),
        valid_utf8(input@) ==> opt_view(r) == parse_spec(decode_utf8(input@), input@, wiki_slug@, page_slug@, binary_options()),
{
    let mut options = ParserOptions::default();
    options.mode = ParseMode::Binary;
    let text = from_utf8_lossy(input);
    match try_parse(text.as_str(), input, wiki_slug, page_slug, &options) {
        Some(_) => Some(parse_wiki_binary(input, wiki_slug, page_slug)),
        None => None,
    }
}

/// Parses a page given as raw bytes in binary mode, every piece of syntax
/// enabled: inline markup is read from the control bytes of each line.
pub fn parse_wiki_binary(input: &[u8], wiki_slug: &str, page_slug: &str) -> (r: String)
    requires
        parse_spec(utf8_lossy(input@), input@, wiki_slug@, page_slug@, binary_options()) is Some,
    ensures
        r@ == parse_spec(utf8_lossy(input@), input@, wiki_slug@, page_slug@, binary_options()).unwrap(),
        valid_utf8(input@) ==> r@ == parse_spec(decode_utf8(input@), input@, wiki_slug@, page_slug@, binary_options()).unwrap(),
{
    let mut options = ParserOptions::default();
    options.mode = ParseMode::Binary;
    let text = from_utf8_lossy(input);
    parse(text.as_str(), input, wiki_slug, page_slug, &options)
}

} // verus!
