//! The switches that turn each piece of wiki syntax on or off.
use vstd::prelude::*;

verus! {

/// How a line's inline markup is read: from its text, or from its raw bytes
/// (where control bytes stand for the markup).
#[derive(Debug, Clone, Copy, PartialEq, Eq, Structural)]
pub enum ParseMode {
    Text,
    Binary,
}

impl Default for ParseMode {
    fn default() -> (m: Self)
        ensures
            m == ParseMode::Text,
    {
        ParseMode::Text
    }
}

/// One flag per piece of syntax; a disabled piece is left as plain text.
#[derive(Debug, Clone, Copy)]
pub struct ParserOptions {
    pub mode: ParseMode,
    pub center: bool,
    pub left: bool,
    pub right: bool,
    pub hr: bool,
    pub br_block: bool,
    pub br_inline: bool,
    pub accordion: bool,
    pub calendar: bool,
    pub comment: bool,
    pub rtcomment: bool,
    pub marquee: bool,
    pub include_block: bool,
    pub ls: bool,
    pub const_block: bool,
    pub let_block: bool,
}

/// The value a flag takes when a configuration leaves it out.
pub fn default_true() -> (b: bool)
    ensures
        b,
{
    true
}

/// Text mode with every piece of syntax enabled.
pub open spec fn default_options() -> ParserOptions {
    ParserOptions {
        mode: ParseMode::Text,
        center: true,
        left: true,
        right: true,
        hr: true,
        br_block: true,
        br_inline: true,
        accordion: true,
        calendar: true,
        comment: true,
        rtcomment: true,
        marquee: true,
        include_block: true,
        ls: true,
        const_block: true,
        let_block: true,
    }
}

impl Default for ParserOptions {
    fn default() -> (o: Self)
        ensures
            o == default_options(),
    {
        Self {
            mode: ParseMode::Text,
            center: true,
            left: true,
            right: true,
            hr: true,
            br_block: true,
            br_inline: true,
            accordion: true,
            calendar: true,
            comment: true,
            rtcomment: true,
            marquee: true,
            include_block: true,
            ls: true,
            const_block: true,
            let_block: true,
        }
    }
}

} // verus!
