//! Identifier-classification rules that let a locator such as
//! `https://host/path?x=1` tokenize as a single identifier.
use vstd::prelude::*;

verus! {

/// True for ASCII letters and `_`: the characters that may begin an identifier.
pub open spec fn spec_identifier_start(ch: char) -> bool {
    ('a' <= ch && ch <= 'z') || ('A' <= ch && ch <= 'Z') || ch == '_'
}

/// True for ASCII letters, digits, and the punctuation that occurs inside a
/// locator, so that a whole locator lexes as one identifier. Whitespace and
/// quote characters are never part characters.
pub open spec fn spec_identifier_part(ch: char) -> bool {
    spec_identifier_start(ch) || ('0' <= ch && ch <= '9') || ch == ':' || ch == '/' || ch == '?'
        || ch == '&' || ch == '=' || ch == '-' || ch == '.'
}

/// Dialect overlay consumed by an external SQL tokenizer: two pure
/// character predicates and no state.
#[derive(Debug, Clone, Copy, PartialEq, Eq, Structural)]
pub struct SqlDialect;

impl SqlDialect {
    pub fn is_identifier_start(&self, ch: char) -> (r: bool)
        ensures
            r == spec_identifier_start(ch),
    {
        ('a' <= ch && ch <= 'z') || ('A' <= ch && ch <= 'Z') || ch == '_'
    }

    pub fn is_identifier_part(&self, ch: char) -> (r: bool)
        ensures
            r == spec_identifier_part(ch),
    {
        self.is_identifier_start(ch) || ('0' <= ch && ch <= '9') || ch == ':' || ch == '/'
            || ch == '?' || ch == '&' || ch == '=' || ch == '-' || ch == '.'
    }
}

impl Default for SqlDialect {
    fn default() -> (r: Self)
        ensures
            r == SqlDialect,
    {
        SqlDialect
    }
}

} // verus!
