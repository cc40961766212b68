//! The JavaScript engine front end's highlighting.  The session protocol
//! for this backend lives in `bridge` under `Backend::Gjs`: its prompt
//! marker is `"gjs> "`, and the engine echoes each request before its
//! answer, so the echo is stripped from the head of the response.

use crate::text::{replace, spec_replace};
use vstd::prelude::*;

verus! {

/// The keyword colouring of a typed line for the JavaScript engine:
/// every keyword or operator is wrapped in its ANSI colour, one
/// replacement after another, in this fixed order.
pub open spec fn spec_highlight_gjs(s: Seq<char>) -> Seq<char> {
    let s = spec_replace(s, "exception"@, "\x1b[1;31mexception\x1b[0m"@);
    let s = spec_replace(s, "datatype"@, "\x1b[1;32mdatatype\x1b[0m"@);
    let s = spec_replace(s, "sig"@, "\x1b[1;32msig\x1b[0m"@);
    let s = spec_replace(s, "nature"@, "\x1b[1;32mnature\x1b[0m"@);
    let s = spec_replace(s, "struct"@, "\x1b[1;32mstruct\x1b[0m"@);
    let s = spec_replace(s, "const"@, "\x1b[38;2;194;14;234mconst\x1b[0m"@);
    let s = spec_replace(s, "type"@, "\x1b[1;32mtype\x1b[0m"@);
    let s = spec_replace(s, "raise"@, "\x1b[1;31mraise\x1b[0m"@);
    let s = spec_replace(s, "case"@, "\x1b[1;94mcase\x1b[0m"@);
    let s = spec_replace(s, "then"@, "\x1b[1;94mthen\x1b[0m"@);
    let s = spec_replace(s, "else"@, "\x1b[1;94melse\x1b[0m"@);
    let s = spec_replace(s, "let"@, "\x1b[38;2;194;14;234mlet\x1b[0m"@);
    let s = spec_replace(s, "val"@, "\x1b[38;2;194;14;234mval\x1b[0m"@);
    let s = spec_replace(s, "end"@, "\x1b[1;32mend\x1b[0m"@);
    let s = spec_replace(s, "fun"@, "\x1b[1;32mfun\x1b[0m"@);
    let s = spec_replace(s, "of"@, "\x1b[1;94mof\x1b[0m"@);
    let s = spec_replace(s, "if"@, "\x1b[1;94mif\x1b[0m"@);
    let s = spec_replace(s, "|"@, "\x1b[1;94m|\x1b[0m"@);
    let s = spec_replace(s, "("@, "\x1b[1;33m(\x1b[0m"@);
    let s = spec_replace(s, "*"@, "\x1b[1;33m*\x1b[0m"@);
    let s = spec_replace(s, ")"@, "\x1b[1;33m)\x1b[0m"@);
    let s = spec_replace(s, ":"@, "\x1b[1;33m:\x1b[0m"@);
    let s = spec_replace(s, "-"@, "\x1b[1;33m-\x1b[0m"@);
    let s = spec_replace(s, "~"@, "\x1b[1;33m~\x1b[0m"@);
    let s = spec_replace(s, "+"@, "\x1b[1;33m+\x1b[0m"@);
    let s = spec_replace(s, ">"@, "\x1b[1;33m>\x1b[0m"@);
    let s = spec_replace(s, "<"@, "\x1b[1;33m<\x1b[0m"@);
    let s = spec_replace(s, "/"@, "\x1b[1;33m/\x1b[0m"@);
    let s = spec_replace(s, "="@, "\x1b[1;33m=\x1b[0m"@);
    let s = spec_replace(s, ","@, "\x1b[1;33m,\x1b[0m"@);
    let s = spec_replace(s, "."@, "\x1b[1;31m.\x1b[0m"@);
    s
}

/// Colour the keywords and operators of a typed line (see
/// `spec_highlight_gjs`).  Purely cosmetic: the line sent to the
/// interpreter is untouched.  The result is a function of the line
/// alone, so repeated calls agree.
pub fn highlight(line: &str, _pos: usize) -> (r: String)
    ensures
        r@ == spec_highlight_gjs(line@),
{
    proof {
        reveal_strlit("exception");
        reveal_strlit("datatype");
        reveal_strlit("sig");
        reveal_strlit("nature");
        reveal_strlit("struct");
        reveal_strlit("const");
        reveal_strlit("type");
        reveal_strlit("raise");
        reveal_strlit("case");
        reveal_strlit("then");
        reveal_strlit("else");
        reveal_strlit("let");
        reveal_strlit("val");
        reveal_strlit("end");
        reveal_strlit("fun");
        reveal_strlit("of");
        reveal_strlit("if");
        reveal_strlit("|");
        reveal_strlit("(");
        reveal_strlit("*");
        reveal_strlit(")");
        reveal_strlit(":");
        reveal_strlit("-");
        reveal_strlit("~");
        reveal_strlit("+");
        reveal_strlit(">");
        reveal_strlit("<");
        reveal_strlit("/");
        reveal_strlit("=");
        reveal_strlit(",");
        reveal_strlit(".");
    }
    let s = replace(line, "exception", "\x1b[1;31mexception\x1b[0m");
    let s = replace(s.as_str(), "datatype", "\x1b[1;32mdatatype\x1b[0m");
    let s = replace(s.as_str(), "sig", "\x1b[1;32msig\x1b[0m");
    let s = replace(s.as_str(), "nature", "\x1b[1;32mnature\x1b[0m");
    let s = replace(s.as_str(), "struct", "\x1b[1;32mstruct\x1b[0m");
    let s = replace(s.as_str(), "const", "\x1b[38;2;194;14;234mconst\x1b[0m");
    let s = replace(s.as_str(), "type", "\x1b[1;32mtype\x1b[0m");
    let s = replace(s.as_str(), "raise", "\x1b[1;31mraise\x1b[0m");
    let s = replace(s.as_str(), "case", "\x1b[1;94mcase\x1b[0m");
    let s = replace(s.as_str(), "then", "\x1b[1;94mthen\x1b[0m");
    let s = replace(s.as_str(), "else", "\x1b[1;94melse\x1b[0m");
    let s = replace(s.as_str(), "let", "\x1b[38;2;194;14;234mlet\x1b[0m");
    let s = replace(s.as_str(), "val", "\x1b[38;2;194;14;234mval\x1b[0m");
    let s = replace(s.as_str(), "end", "\x1b[1;32mend\x1b[0m");
    let s = replace(s.as_str(), "fun", "\x1b[1;32mfun\x1b[0m");
    let s = replace(s.as_str(), "of", "\x1b[1;94mof\x1b[0m");
    let s = replace(s.as_str(), "if", "\x1b[1;94mif\x1b[0m");
    let s = replace(s.as_str(), "|", "\x1b[1;94m|\x1b[0m");
    let s = replace(s.as_str(), "(", "\x1b[1;33m(\x1b[0m");
    let s = replace(s.as_str(), "*", "\x1b[1;33m*\x1b[0m");
    let s = replace(s.as_str(), ")", "\x1b[1;33m)\x1b[0m");
    let s = replace(s.as_str(), ":", "\x1b[1;33m:\x1b[0m");
    let s = replace(s.as_str(), "-", "\x1b[1;33m-\x1b[0m");
    let s = replace(s.as_str(), "~", "\x1b[1;33m~\x1b[0m");
    let s = replace(s.as_str(), "+", "\x1b[1;33m+\x1b[0m");
    let s = replace(s.as_str(), ">", "\x1b[1;33m>\x1b[0m");
    let s = replace(s.as_str(), "<", "\x1b[1;33m<\x1b[0m");
    let s = replace(s.as_str(), "/", "\x1b[1;33m/\x1b[0m");
    let s = replace(s.as_str(), "=", "\x1b[1;33m=\x1b[0m");
    let s = replace(s.as_str(), ",", "\x1b[1;33m,\x1b[0m");
    let s = replace(s.as_str(), ".", "\x1b[1;31m.\x1b[0m");
    s
}

} // verus!
