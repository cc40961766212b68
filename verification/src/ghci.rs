//! The Haskell REPL front end's highlighting.  The session protocol for
//! this backend lives in `bridge` under `Backend::Ghci`: its prompt
//! marker is `"Prelude> "`, requests pass byte for byte, and the output
//! is cut at the last occurrence of the marker.

use crate::editor::{highlight_keywords, spec_highlight_keywords};
use vstd::prelude::*;

verus! {

/// Colour the keywords and operators of a typed line.  Purely cosmetic:
/// the line sent to the interpreter is untouched.  The result is a
/// function of the line alone, so repeated calls agree.
pub fn highlight(line: &str, _pos: usize) -> (r: String)
    ensures
        r@ == spec_highlight_keywords(line@),
{
    highlight_keywords(line)
}

} // verus!
