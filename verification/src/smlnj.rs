//! The Standard ML REPL front end's highlighting.  The session protocol
//! for this backend lives in `bridge` under `Backend::Smlnj`: its prompt
//! marker is `"\n-"`, and a `;` is inserted before the trailing newline
//! of a request when the user left it out.

use crate::editor::{highlight_keywords, spec_highlight_keywords};
use vstd::prelude::*;

verus! {

/// Colour the keywords and operators of a typed line.  Purely cosmetic:
/// the line sent to the interpreter is untouched.  The result is a
/// function of the line alone, so repeated calls agree.
pub fn highlight(line: &str) -> (r: String)
    ensures
        r@ == spec_highlight_keywords(line@),
{
    highlight_keywords(line)
}

} // verus!
