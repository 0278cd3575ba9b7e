//! The error type of the blocking core.
use vstd::prelude::*;

use crate::text::{append_chars, append_str, string_from_chars};

verus! {

/// Why a domain or a rule was refused.
#[derive(Debug, Clone, PartialEq, Eq)]
pub enum BlockerError {
    EmptyDomain,
    InvalidDomain(String),
    InvalidRule(String),
}

/// A `BlockerError` with its strings taken as character sequences.
pub enum BlockerErrorView {
    EmptyDomain,
    InvalidDomain(Seq<char>),
    InvalidRule(Seq<char>),
}

impl View for BlockerError {
    type V = BlockerErrorView;

    open spec fn view(&self) -> BlockerErrorView {
        match self {
            BlockerError::EmptyDomain => BlockerErrorView::EmptyDomain,
            BlockerError::InvalidDomain(d) => BlockerErrorView::InvalidDomain(d@),
            BlockerError::InvalidRule(r) => BlockerErrorView::InvalidRule(r@),
        }
    }
}

/// The human-readable message of an error.
pub open spec fn error_message(e: BlockerErrorView) -> Seq<char> {
    match e {
        BlockerErrorView::EmptyDomain => seq!['d', 'o', 'm', 'a', 'i', 'n', ' ', 'i', 's', ' ', 'e', 'm', 'p', 't', 'y'],
        BlockerErrorView::InvalidDomain(d) => seq!['i', 'n', 'v', 'a', 'l', 'i', 'd', ' ', 'd', 'o', 'm', 'a', 'i', 'n', ':', ' '] + d,
        BlockerErrorView::InvalidRule(r) => seq!['i', 'n', 'v', 'a', 'l', 'i', 'd', ' ', 'r', 'u', 'l', 'e', ':', ' '] + r,
    }
}

impl BlockerError {
    /// The message of this error: "domain is empty", "invalid domain: <d>"
    /// or "invalid rule: <r>".
    pub fn message(&self) -> (s: String)
        ensures
            s@ == error_message(self@),
    {
        let mut out: Vec<char> = Vec::new();
        match self {
            BlockerError::EmptyDomain => {
                append_chars(&mut out, &['d', 'o', 'm', 'a', 'i', 'n', ' ', 'i', 's', ' ', 'e', 'm', 'p', 't', 'y']);
            },
            BlockerError::InvalidDomain(d) => {
                append_chars(&mut out, &['i', 'n', 'v', 'a', 'l', 'i', 'd', ' ', 'd', 'o', 'm', 'a', 'i', 'n', ':', ' ']);
                append_str(&mut out, d.as_str());
            },
            BlockerError::InvalidRule(r) => {
                append_chars(&mut out, &['i', 'n', 'v', 'a', 'l', 'i', 'd', ' ', 'r', 'u', 'l', 'e', ':', ' ']);
                append_str(&mut out, r.as_str());
            },
        }
        string_from_chars(out.as_slice())
    }
}

/// What `<str as Debug>::fmt` writes for a string: the string in double
/// quotes, with escapes.
pub uninterp spec fn str_debug(s: Seq<char>) -> Seq<char>;

/// Formats a string with `{:?}` (std's `Debug` for `str`). The result is named
/// by `str_debug`: a function of the string alone.
#[verifier::external_body]
fn str_debug_text(s: &str) -> (r: String)
    ensures
        r@ == str_debug(s@),
{
    format!("{:?}", s)
}

/// The text of an error in its `Debug` form, as `{:?}` writes it.
pub open spec fn error_debug(e: BlockerErrorView) -> Seq<char> {
    match e {
        BlockerErrorView::EmptyDomain => "EmptyDomain"@,
        BlockerErrorView::InvalidDomain(d) => "InvalidDomain("@ + str_debug(d) + ")"@,
        BlockerErrorView::InvalidRule(r) => "InvalidRule("@ + str_debug(r) + ")"@,
    }
}

impl BlockerError {
    /// The text of this error in its `Debug` form, such as
    /// `InvalidDomain("bad domain")`.
    pub fn debug_text(&self) -> (s: String)
        ensures
            s@ == error_debug(self@),
    {
        let mut out: Vec<char> = Vec::new();
        match self {
            BlockerError::EmptyDomain => {
                append_str(&mut out, "EmptyDomain");
            },
            BlockerError::InvalidDomain(d) => {
                append_str(&mut out, "InvalidDomain(");
                append_str(&mut out, str_debug_text(d.as_str()).as_str());
                append_str(&mut out, ")");
            },
            BlockerError::InvalidRule(r) => {
                append_str(&mut out, "InvalidRule(");
                append_str(&mut out, str_debug_text(r.as_str()).as_str());
                append_str(&mut out, ")");
            },
        }
        string_from_chars(out.as_slice())
    }
}

} // verus!
