//! Typed errors of the tag extractor.
use vstd::prelude::*;

use crate::text::push_str;

verus! {

/// Errors raised while extracting tags from a source file.
#[derive(Debug)]
pub enum MapError {
    /// The tag query (or the grammar behind it) could not be loaded.
    QueryCompile(String),
    /// The parser produced no tree for the named file.
    ParseFailed(String),
}

/// The human-readable text of a `MapError`.
pub open spec fn map_error_text(e: MapError) -> Seq<char> {
    match e {
        MapError::QueryCompile(s) => "Query compile failed: "@ + s@,
        MapError::ParseFailed(s) => "Parse failed for file: "@ + s@,
    }
}

impl MapError {
    /// The message shown to users for this error.
    pub fn message(&self) -> (r: String)
        ensures
            r@ == map_error_text(*self),
    {
        let mut out = String::new();
        match self {
            MapError::QueryCompile(s) => {
                push_str(&mut out, "Query compile failed: ");
                push_str(&mut out, s.as_str());
            },
            MapError::ParseFailed(s) => {
                push_str(&mut out, "Parse failed for file: ");
                push_str(&mut out, s.as_str());
            },
        }
        assert(out@ =~= map_error_text(*self));
        out
    }
}

} // verus!
