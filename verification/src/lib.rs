//! Top-level facade for the pattern front end.
//!
//! The pattern syntax itself lives in the [`syntax`] module; the crate root
//! offers [`escape`], the convenience routine that callers quoting untrusted
//! text into a pattern reach for first.

use vstd::prelude::*;

pub mod syntax;

verus! {

/// Escapes all regular expression meta characters in `pattern`.
///
/// The string returned may be safely used as a literal in a regular
/// expression.
pub fn escape(pattern: &str) -> (quoted: String)
    ensures
        quoted@ == syntax::escaped(pattern@),
{
    syntax::escape(pattern)
}

} // verus!
