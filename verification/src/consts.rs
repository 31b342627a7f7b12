use vstd::prelude::*;

verus! {

/// One unit of semantic indentation in the source language.
pub const INDENT: &'static str = "    ";

/// The two delimiters that open and close a docstring.
pub struct DocstringMarker;

impl DocstringMarker {
    pub const SINGLE: &'static str = "'''";

    pub const DOUBLE: &'static str = "\"\"\"";
}

/// Body statements that carry no structural information.
pub struct Placeholder;

impl Placeholder {
    pub const PASS: &'static str = "pass";

    pub const ELLIPSIS: &'static str = "...";
}

} // verus!
