//! Convert a restricted subset of Python class-definition syntax into
//! Mermaid `classDiagram` text: a line classifier, a quote-aware splitter,
//! a bracket-balancing multi-line scanner, a class parser and a renderer.

use vstd::prelude::*;

pub mod consts;
pub mod mermaid;
pub mod models;
pub mod parser;
pub mod scanner;
pub mod text;

verus! {

/// The full pipeline on one source text: parse every module-level class,
/// keep the earliest definition of each name, and render the diagram.
/// Fails exactly when parsing fails; rendering itself cannot.
pub fn from_src(src: String) -> (r: Result<String, parser::ParseError>)
    ensures
        match parser::parse_spec(src@) {
            Some(cs) => r matches Ok(out) && out@ == mermaid::render_spec(cs),
            None => r is Err,
        },
{
    let models = match parser::parse(src) {
        Ok(m) => m,
        Err(e) => {
            return Err(e);
        },
    };
    match mermaid::ClassDiagram::make(models) {
        Ok(out) => Ok(out),
        Err(e) => Err(parser::ParseError(e.0)),
    }
}

} // verus!
