//! What the line editor needs from the library: keyword highlighting of
//! the typed line and word completion against collected hints.

use crate::text::{chars_of, replace, spec_replace, string_of_chars, window_matches};
use vstd::prelude::*;

verus! {

/// The keyword colouring of a typed line: every keyword or operator is
/// wrapped in its ANSI colour, one replacement after another, in this
/// fixed order (the lone `;` first, then keywords by length, then the
/// single-character operators).  Applied to what the user sees while
/// typing; the line sent to the interpreter is untouched.
pub open spec fn spec_highlight_keywords(s: Seq<char>) -> Seq<char> {
    let s = spec_replace(s, ";"@, "\x1b[1;33m;\x1b[0m"@);
    let s = spec_replace(s, "deriv"@, "\x1b[1;32mderiv\x1b[0m"@);
    let s = spec_replace(s, "where"@, "\x1b[1;31mwhere\x1b[0m"@);
    let s = spec_replace(s, "data"@, "\x1b[1;34mdata\x1b[0m"@);
    let s = spec_replace(s, "case"@, "\x1b[1;36mcase\x1b[0m"@);
    let s = spec_replace(s, "else"@, "\x1b[1;33melse\x1b[0m"@);
    let s = spec_replace(s, "then"@, "\x1b[1;33mthen\x1b[0m"@);
    let s = spec_replace(s, "let"@, "\x1b[1;32mlet\x1b[0m"@);
    let s = spec_replace(s, "in"@, "\x1b[1;32min\x1b[0m"@);
    let s = spec_replace(s, "of"@, "\x1b[1;36mof\x1b[0m"@);
    let s = spec_replace(s, "if"@, "\x1b[1;33mif\x1b[0m"@);
    let s = spec_replace(s, "="@, "\x1b[1;33m=\x1b[0m"@);
    let s = spec_replace(s, "+"@, "\x1b[1;33m+\x1b[0m"@);
    let s = spec_replace(s, "-"@, "\x1b[1;33m-\x1b[0m"@);
    let s = spec_replace(s, "*"@, "\x1b[1;33m*\x1b[0m"@);
    let s = spec_replace(s, "/"@, "\x1b[1;33m/\x1b[0m"@);
    let s = spec_replace(s, "("@, "\x1b[1;33m(\x1b[0m"@);
    let s = spec_replace(s, ")"@, "\x1b[1;33m)\x1b[0m"@);
    let s = spec_replace(s, ">"@, "\x1b[1;33m>\x1b[0m"@);
    let s = spec_replace(s, "<"@, "\x1b[1;33m<\x1b[0m"@);
    let s = spec_replace(s, "^"@, "\x1b[1;33m^\x1b[0m"@);
    let s = spec_replace(s, "|"@, "\x1b[1;33m|\x1b[0m"@);
    let s = spec_replace(s, "."@, "\x1b[1;31m.\x1b[0m"@);
    let s = spec_replace(s, "$"@, "\x1b[1;31m$\x1b[0m"@);
    s
}

/// Colour the keywords and operators of a line (see
/// `spec_highlight_keywords`).  The result is a function of the line
/// alone: repeated calls on the same line return the same text.
pub fn highlight_keywords(line: &str) -> (r: String)
    ensures
        r@ == spec_highlight_keywords(line@),
{
    proof {
        reveal_strlit(";");
        reveal_strlit("deriv");
        reveal_strlit("where");
        reveal_strlit("data");
        reveal_strlit("case");
        reveal_strlit("else");
        reveal_strlit("then");
        reveal_strlit("let");
        reveal_strlit("in");
        reveal_strlit("of");
        reveal_strlit("if");
        reveal_strlit("=");
        reveal_strlit("+");
        reveal_strlit("-");
        reveal_strlit("*");
        reveal_strlit("/");
        reveal_strlit("(");
        reveal_strlit(")");
        reveal_strlit(">");
        reveal_strlit("<");
        reveal_strlit("^");
        reveal_strlit("|");
        reveal_strlit(".");
        reveal_strlit("$");
    }
    let s = replace(line, ";", "\x1b[1;33m;\x1b[0m");
    let s = replace(s.as_str(), "deriv", "\x1b[1;32mderiv\x1b[0m");
    let s = replace(s.as_str(), "where", "\x1b[1;31mwhere\x1b[0m");
    let s = replace(s.as_str(), "data", "\x1b[1;34mdata\x1b[0m");
    let s = replace(s.as_str(), "case", "\x1b[1;36mcase\x1b[0m");
    let s = replace(s.as_str(), "else", "\x1b[1;33melse\x1b[0m");
    let s = replace(s.as_str(), "then", "\x1b[1;33mthen\x1b[0m");
    let s = replace(s.as_str(), "let", "\x1b[1;32mlet\x1b[0m");
    let s = replace(s.as_str(), "in", "\x1b[1;32min\x1b[0m");
    let s = replace(s.as_str(), "of", "\x1b[1;36mof\x1b[0m");
    let s = replace(s.as_str(), "if", "\x1b[1;33mif\x1b[0m");
    let s = replace(s.as_str(), "=", "\x1b[1;33m=\x1b[0m");
    let s = replace(s.as_str(), "+", "\x1b[1;33m+\x1b[0m");
    let s = replace(s.as_str(), "-", "\x1b[1;33m-\x1b[0m");
    let s = replace(s.as_str(), "*", "\x1b[1;33m*\x1b[0m");
    let s = replace(s.as_str(), "/", "\x1b[1;33m/\x1b[0m");
    let s = replace(s.as_str(), "(", "\x1b[1;33m(\x1b[0m");
    let s = replace(s.as_str(), ")", "\x1b[1;33m)\x1b[0m");
    let s = replace(s.as_str(), ">", "\x1b[1;33m>\x1b[0m");
    let s = replace(s.as_str(), "<", "\x1b[1;33m<\x1b[0m");
    let s = replace(s.as_str(), "^", "\x1b[1;33m^\x1b[0m");
    let s = replace(s.as_str(), "|", "\x1b[1;33m|\x1b[0m");
    let s = replace(s.as_str(), ".", "\x1b[1;31m.\x1b[0m");
    let s = replace(s.as_str(), "$", "\x1b[1;31m$\x1b[0m");
    s
}

/// Highlighting carries no state between calls: any two results of
/// colouring the same line are the same text.
pub proof fn lemma_highlight_deterministic(line: Seq<char>, r1: Seq<char>, r2: Seq<char>)
    requires
        r1 == spec_highlight_keywords(line),
        r2 == spec_highlight_keywords(line),
    ensures
        r1 == r2,
{
}

/// Where the word under the cursor starts: one past the last space in
/// the text before the cursor, or the beginning of the line.
pub open spec fn spec_word_start(prefix: Seq<char>) -> int
    decreases prefix.len(),
{
    if prefix.len() == 0 {
        0
    } else if prefix.last() == ' ' {
        prefix.len() as int
    } else {
        spec_word_start(prefix.drop_last())
    }
}

/// `h` begins with `w`.
pub open spec fn starts_with_chars(h: Seq<char>, w: Seq<char>) -> bool {
    h.len() >= w.len() && h.take(w.len() as int) == w
}

/// The completion candidates for word `w` among `hints`, in hint order:
/// for every hint beginning with `w`, the rest of that hint.
pub open spec fn spec_candidates(hints: Seq<Seq<char>>, w: Seq<char>) -> Seq<Seq<char>>
    decreases hints.len(),
{
    if hints.len() == 0 {
        Seq::empty()
    } else {
        let rest = spec_candidates(hints.drop_last(), w);
        if starts_with_chars(hints.last(), w) {
            rest.push(hints.last().skip(w.len() as int))
        } else {
            rest
        }
    }
}

/// Complete the word under the cursor against the collected hints.  The
/// word runs from just after the last space before the cursor up to the
/// cursor; an empty word completes to nothing.  Returns the position the
/// candidates apply at and, for every hint the word begins, what remains
/// of that hint.
pub fn complete(hints: &Vec<String>, line: &str, pos: usize) -> (r: (usize, Vec<String>))
    requires
        pos <= line@.len(),
    ensures
        ({
            let w = line@.subrange(spec_word_start(line@.take(pos as int)), pos as int);
            if w.len() == 0 {
                r.0 == 0 && r.1@.len() == 0
            } else {
                r.0 == pos && r.1.deep_view() == spec_candidates(hints.deep_view(), w)
            }
        }),
{
    let cs = chars_of(line);
    let mut start: usize = pos;
    proof {
        assert(line@.take(pos as int).len() == pos);
    }
    while start > 0 && cs[start - 1] != ' '
        invariant
            cs@ == line@,
            start <= pos <= line@.len(),
            spec_word_start(line@.take(pos as int)) == spec_word_start(line@.take(start as int)),
        decreases start,
    {
        proof {
            assert(line@.take(start as int).last() == line@[start - 1]);
            assert(line@.take(start as int).drop_last() =~= line@.take(start - 1));
        }
        start = start - 1;
    }
    proof {
        if start > 0 {
            assert(line@.take(start as int).last() == line@[start - 1]);
        } else {
            assert(line@.take(0) =~= Seq::<char>::empty());
        }
        assert(spec_word_start(line@.take(pos as int)) == start);
    }
    let ghost w = line@.subrange(start as int, pos as int);
    if start == pos {
        let empty: Vec<String> = Vec::new();
        return (0, empty);
    }
    // The word under the cursor.
    let mut wc: Vec<char> = Vec::new();
    let mut i: usize = start;
    proof {
        assert(wc@ =~= line@.subrange(start as int, start as int));
    }
    while i < pos
        invariant
            cs@ == line@,
            start <= i <= pos <= line@.len(),
            wc@ == line@.subrange(start as int, i as int),
        decreases pos - i,
    {
        wc.push(cs[i]);
        i = i + 1;
        proof {
            assert(line@.subrange(start as int, i as int) =~= line@.subrange(
                start as int,
                i - 1,
            ).push(line@[i - 1]));
        }
    }
    // Gather what remains of every hint that begins with the word.
    let ghost deep = hints.deep_view();
    let mut candidates: Vec<String> = Vec::new();
    let mut h: usize = 0;
    proof {
        assert(deep.take(0) =~= Seq::<Seq<char>>::empty());
        assert(candidates.deep_view() =~= spec_candidates(deep.take(0), w));
    }
    while h < hints.len()
        invariant
            deep == hints.deep_view(),
            deep.len() == hints@.len(),
            w == wc@,
            w.len() > 0,
            h <= hints@.len(),
            candidates.deep_view() == spec_candidates(deep.take(h as int), w),
        decreases hints@.len() - h,
    {
        let ghost before = candidates.deep_view();
        let hc = chars_of(hints[h].as_str());
        proof {
            assert(hc@ == deep[h as int]);
            assert(deep.take(h + 1).drop_last() =~= deep.take(h as int));
            assert(deep.take(h + 1).last() == deep[h as int]);
        }
        if wc.len() <= hc.len() && window_matches(&hc, &wc, 0) {
            proof {
                assert(hc@.subrange(0, w.len() as int) =~= hc@.take(w.len() as int));
            }
            let mut suffix: Vec<char> = Vec::new();
            let mut k: usize = wc.len();
            proof {
                assert(suffix@ =~= hc@.subrange(w.len() as int, k as int));
            }
            while k < hc.len()
                invariant
                    w.len() <= k <= hc@.len(),
                    suffix@ == hc@.subrange(w.len() as int, k as int),
                decreases hc@.len() - k,
            {
                suffix.push(hc[k]);
                k = k + 1;
                proof {
                    assert(hc@.subrange(w.len() as int, k as int) =~= hc@.subrange(
                        w.len() as int,
                        k - 1,
                    ).push(hc@[k - 1]));
                }
            }
            proof {
                assert(suffix@ =~= hc@.skip(w.len() as int));
            }
            candidates.push(string_of_chars(&suffix));
            proof {
                assert(candidates.deep_view() =~= before.push(hc@.skip(w.len() as int)));
            }
        } else {
            proof {
                if wc.len() <= hc.len() {
                    assert(hc@.subrange(0, w.len() as int) =~= hc@.take(w.len() as int));
                }
                assert(!starts_with_chars(deep[h as int], w));
            }
        }
        h = h + 1;
    }
    proof {
        assert(deep.take(hints@.len() as int) =~= deep);
    }
    (pos, candidates)
}

} // verus!
