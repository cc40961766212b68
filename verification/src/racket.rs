//! The Scheme REPL front end's highlighting: keywords are coloured by
//! their leading character, and each bracket pair gets its own colour
//! from a palette, handed out by a stack so that matching brackets
//! match in colour.  The session protocol for this backend lives in
//! `bridge` under `Backend::Racket`: its prompt marker is `"> "`.

use crate::text::{chars_of, string_of_chars, window_matches};
use vstd::prelude::*;

verus! {

/// The decimal digits of a byte value, most significant first, without
/// leading zeroes.
pub open spec fn spec_dec_u8(n: u8) -> Seq<char> {
    if n < 10 {
        seq![((48 + n) as char)]
    } else if n < 100 {
        seq![((48 + n / 10) as char), ((48 + n % 10) as char)]
    } else {
        seq![((48 + n / 100) as char), ((48 + (n / 10) % 10) as char), ((48 + n % 10) as char)]
    }
}

/// Append the decimal digits of `n` to `out`.
fn push_dec_u8(out: &mut Vec<char>, n: u8)
    ensures
        final(out)@ == old(out)@ + spec_dec_u8(n),
{
    let ghost out0 = old(out)@;
    if n < 10 {
        out.push((48 + n) as char);
    } else if n < 100 {
        out.push((48 + n / 10) as char);
        out.push((48 + n % 10) as char);
    } else {
        out.push((48 + n / 100) as char);
        out.push((48 + (n / 10) % 10) as char);
        out.push((48 + n % 10) as char);
    }
    proof {
        assert(final(out)@ =~= out0 + spec_dec_u8(n));
    }
}

/// Text wrapped in an ANSI colour sequence with the given parameter
/// string: an escape introducer, the parameters, the text, a reset.
pub open spec fn wrap_code(code: Seq<char>, w: Seq<char>) -> Seq<char> {
    seq!['\u{1b}', '['] + code + seq!['m'] + w + seq!['\u{1b}', '[', '0', 'm']
}

/// The ANSI parameter string selecting a 24-bit foreground colour.
pub open spec fn rgb_code(color: (u8, u8, u8)) -> Seq<char> {
    seq!['3', '8', ';', '2', ';'] + spec_dec_u8(color.0) + seq![';'] + spec_dec_u8(color.1)
        + seq![';'] + spec_dec_u8(color.2)
}

/// Text in a 24-bit foreground colour.
pub open spec fn rgb_wrap(color: (u8, u8, u8), w: Seq<char>) -> Seq<char> {
    wrap_code(rgb_code(color), w)
}

/// Append `w` wrapped in the ANSI sequence for `code` to `out`.
fn push_wrapped(out: &mut Vec<char>, code: &Vec<char>, w: &Vec<char>)
    ensures
        final(out)@ == old(out)@ + wrap_code(code@, w@),
{
    let ghost out0 = old(out)@;
    out.push('\u{1b}');
    out.push('[');
    let mut i: usize = 0;
    while i < code.len()
        invariant
            i <= code@.len(),
            out@ == out0 + seq!['\u{1b}', '['] + code@.take(i as int),
        decreases code@.len() - i,
    {
        out.push(code[i]);
        i = i + 1;
        proof {
            assert(code@.take(i as int) =~= code@.take(i - 1).push(code@[i - 1]));
            assert(out0 + seq!['\u{1b}', '['] + code@.take(i as int) =~= (out0 + seq![
                '\u{1b}',
                '[',
            ] + code@.take(i - 1)).push(code@[i - 1]));
        }
    }
    proof {
        assert(code@.take(code@.len() as int) =~= code@);
    }
    out.push('m');
    let ghost mid = out0 + seq!['\u{1b}', '['] + code@ + seq!['m'];
    proof {
        assert(out@ =~= mid);
    }
    let mut j: usize = 0;
    while j < w.len()
        invariant
            j <= w@.len(),
            out@ == mid + w@.take(j as int),
        decreases w@.len() - j,
    {
        out.push(w[j]);
        j = j + 1;
        proof {
            assert(w@.take(j as int) =~= w@.take(j - 1).push(w@[j - 1]));
            assert(mid + w@.take(j as int) =~= (mid + w@.take(j - 1)).push(w@[j - 1]));
        }
    }
    proof {
        assert(w@.take(w@.len() as int) =~= w@);
    }
    out.push('\u{1b}');
    out.push('[');
    out.push('0');
    out.push('m');
    proof {
        assert(final(out)@ =~= out0 + wrap_code(code@, w@));
    }
}

/// The ANSI parameter characters for a 24-bit colour.
fn rgb_code_chars(color: (u8, u8, u8)) -> (v: Vec<char>)
    ensures
        v@ == rgb_code(color),
{
    let mut v: Vec<char> = Vec::new();
    v.push('3');
    v.push('8');
    v.push(';');
    v.push('2');
    v.push(';');
    proof {
        assert(v@ =~= seq!['3', '8', ';', '2', ';']);
    }
    push_dec_u8(&mut v, color.0);
    v.push(';');
    push_dec_u8(&mut v, color.1);
    v.push(';');
    push_dec_u8(&mut v, color.2);
    proof {
        assert(v@ =~= rgb_code(color));
    }
    v
}

/// Relies on rand::random: a colour triple drawn from the thread-local
/// generator; nothing is promised of its value.
#[verifier::external_body]
fn rand_color() -> (u8, u8, u8) {
    rand::random()
}

/// A freshly drawn bracket-colour palette of one hundred colours, fixed
/// for the lifetime of a session so that repeated highlighting of a line
/// colours it identically.
pub fn random_palette() -> (p: Vec<(u8, u8, u8)>)
    ensures
        p@.len() == 100,
{
    let mut p: Vec<(u8, u8, u8)> = Vec::new();
    let mut i: usize = 0;
    while i < 100
        invariant
            i <= 100,
            p@.len() == i,
        decreases 100 - i,
    {
        p.push(rand_color());
        i = i + 1;
    }
    p
}

/// Hands one palette colour to each opening bracket and keeps them on a
/// stack, so each closing bracket takes the colour of the bracket it
/// closes.
pub struct BracketColorGen {
    colors: Vec<(u8, u8, u8)>,
    buffer: Vec<(u8, u8, u8)>,
    color_idx: usize,
}

impl BracketColorGen {
    /// The palette colours are drawn from.
    pub closed spec fn palette(&self) -> Seq<(u8, u8, u8)> {
        self.colors@
    }

    /// The colours of the brackets currently open, innermost last.
    pub closed spec fn stack(&self) -> Seq<(u8, u8, u8)> {
        self.buffer@
    }

    /// How many palette colours have been handed out.
    pub closed spec fn handed_out(&self) -> nat {
        self.color_idx as nat
    }

    pub fn new(colors: Vec<(u8, u8, u8)>) -> (g: Self)
        ensures
            g.palette() == colors@,
            g.stack().len() == 0,
            g.handed_out() == 0,
    {
        BracketColorGen { colors, buffer: Vec::new(), color_idx: 0 }
    }

    /// Colour an opening bracket with the next palette colour and
    /// remember that colour for the matching closing bracket.
    pub fn next(&mut self, b: char) -> (r: String)
        requires
            old(self).handed_out() < old(self).palette().len(),
        ensures
            final(self).palette() == old(self).palette(),
            final(self).handed_out() == old(self).handed_out() + 1,
            final(self).stack() == old(self).stack().push(
                old(self).palette()[old(self).handed_out() as int],
            ),
            r@ == rgb_wrap(old(self).palette()[old(self).handed_out() as int], seq![b]),
    {
        let n = self.colors.len();
        assert(self.color_idx < n);
        let color = self.colors[self.color_idx];
        self.color_idx = self.color_idx + 1;
        self.buffer.push(color);
        let code = rgb_code_chars(color);
        let mut w: Vec<char> = Vec::new();
        w.push(b);
        let mut out: Vec<char> = Vec::new();
        push_wrapped(&mut out, &code, &w);
        proof {
            assert(w@ =~= seq![b]);
            assert(out@ =~= rgb_wrap(color, seq![b]));
        }
        string_of_chars(&out)
    }

    /// Colour a closing bracket with the colour of the bracket it
    /// closes, or leave it plain when no bracket is open.
    pub fn rev(&mut self, b: char) -> (r: String)
        ensures
            final(self).palette() == old(self).palette(),
            final(self).handed_out() == old(self).handed_out(),
            old(self).stack().len() > 0 ==> final(self).stack() == old(self).stack().drop_last()
                && r@ == rgb_wrap(old(self).stack().last(), seq![b]),
            old(self).stack().len() == 0 ==> final(self).stack() == old(self).stack() && r@ == seq![
                b,
            ],
    {
        match self.buffer.pop() {
            Option::Some(color) => {
                let code = rgb_code_chars(color);
                let mut w: Vec<char> = Vec::new();
                w.push(b);
                let mut out: Vec<char> = Vec::new();
                push_wrapped(&mut out, &code, &w);
                proof {
                    assert(w@ =~= seq![b]);
                    assert(out@ =~= rgb_wrap(color, seq![b]));
                }
                string_of_chars(&out)
            },
            Option::None => {
                let mut w: Vec<char> = Vec::new();
                w.push(b);
                proof {
                    assert(w@ =~= seq![b]);
                }
                string_of_chars(&w)
            },
        }
    }
}

/// Highlighting carries no state between calls: for one palette, any
/// two results of colouring the same line are the same text.
pub proof fn lemma_racket_highlight_deterministic(
    line: Seq<char>,
    palette: Seq<(u8, u8, u8)>,
    r1: Seq<char>,
    r2: Seq<char>,
)
    requires
        r1 == spec_racket_hl(line, 0, Seq::empty(), 0, palette),
        r2 == spec_racket_hl(line, 0, Seq::empty(), 0, palette),
    ensures
        r1 == r2,
{
}

/// `kw` stands at position `i` of `s`.
pub open spec fn kw_at(s: Seq<char>, i: int, kw: Seq<char>) -> bool {
    0 <= i && i + kw.len() <= s.len() && s.subrange(i, i + kw.len()) == kw
}

/// Light blue, for the structural keywords.
pub open spec fn lbw(w: Seq<char>) -> Seq<char> {
    wrap_code(seq!['1', ';', '9', '4'], w)
}

/// Red, for the mutation keywords.
pub open spec fn redw(w: Seq<char>) -> Seq<char> {
    wrap_code(seq!['1', ';', '3', '1'], w)
}

/// Green, for the boolean literals.
pub open spec fn greenw(w: Seq<char>) -> Seq<char> {
    wrap_code(seq!['1', ';', '3', '2'], w)
}

/// Yellow, for the operators.
pub open spec fn yelw(w: Seq<char>) -> Seq<char> {
    wrap_code(seq!['1', ';', '3', '3'], w)
}

/// Orange, for the control keywords.
pub open spec fn orangew(w: Seq<char>) -> Seq<char> {
    rgb_wrap((255u8, 100u8, 0u8), w)
}

/// An operator coloured yellow.
pub open spec fn is_yellow_op(c: char) -> bool {
    c == '+' || c == '-' || c == '/' || c == '*' || c == '=' || c == '"' || c == '?'
}

/// The colouring of the line from position `i` on, given the colours of
/// the brackets currently open and how much of the palette is used.
/// Keywords are recognised at their leading character, longest
/// candidate first; an opening bracket takes the next palette colour
/// (or stays plain once the palette is exhausted) and a closing bracket
/// takes the colour of the bracket it closes.
pub open spec fn spec_racket_hl(
    s: Seq<char>,
    i: int,
    stack: Seq<(u8, u8, u8)>,
    idx: int,
    palette: Seq<(u8, u8, u8)>,
) -> Seq<char>
    decreases s.len() - i,
{
    if i < 0 || i >= s.len() {
        Seq::empty()
    } else {
        let c = s[i];
        if c == '(' || c == '[' {
            if 0 <= idx && idx < palette.len() {
                rgb_wrap(palette[idx], seq![c]) + spec_racket_hl(
                    s,
                    i + 1,
                    stack.push(palette[idx]),
                    idx + 1,
                    palette,
                )
            } else {
                seq![c] + spec_racket_hl(s, i + 1, stack, idx, palette)
            }
        } else if c == ')' || c == ']' {
            if stack.len() > 0 {
                rgb_wrap(stack.last(), seq![c]) + spec_racket_hl(
                    s,
                    i + 1,
                    stack.drop_last(),
                    idx,
                    palette,
                )
            } else {
                seq![c] + spec_racket_hl(s, i + 1, stack, idx, palette)
            }
        } else if c == 'a' {
            if kw_at(s, i, seq!['a', 'n', 'd']) {
                lbw(seq!['a', 'n', 'd']) + spec_racket_hl(s, i + 3, stack, idx, palette)
            } else {
                seq![c] + spec_racket_hl(s, i + 1, stack, idx, palette)
            }
        } else if c == 'b' {
            if kw_at(s, i, seq!['b', 'e', 'g', 'i', 'n']) {
                lbw(seq!['b', 'e', 'g', 'i', 'n']) + spec_racket_hl(s, i + 5, stack, idx, palette)
            } else {
                seq![c] + spec_racket_hl(s, i + 1, stack, idx, palette)
            }
        } else if c == 'c' {
            if kw_at(s, i, seq!['c', 'o', 'n', 's']) {
                lbw(seq!['c', 'o', 'n', 's']) + spec_racket_hl(s, i + 4, stack, idx, palette)
            } else if kw_at(s, i, seq!['c', 'a', 'r']) {
                lbw(seq!['c', 'a', 'r']) + spec_racket_hl(s, i + 3, stack, idx, palette)
            } else if kw_at(s, i, seq!['c', 'd', 'r']) {
                lbw(seq!['c', 'd', 'r']) + spec_racket_hl(s, i + 3, stack, idx, palette)
            } else if kw_at(s, i, seq!['c', 'o', 'n', 'd']) {
                lbw(seq!['c', 'o', 'n', 'd']) + spec_racket_hl(s, i + 4, stack, idx, palette)
            } else {
                seq![c] + spec_racket_hl(s, i + 1, stack, idx, palette)
            }
        } else if c == 'd' {
            if kw_at(s, i, seq!['d', 'e', 'f', 'i', 'n', 'e']) {
                lbw(seq!['d', 'e', 'f', 'i', 'n', 'e']) + spec_racket_hl(
                    s,
                    i + 6,
                    stack,
                    idx,
                    palette,
                )
            } else {
                seq![c] + spec_racket_hl(s, i + 1, stack, idx, palette)
            }
        } else if c == 'e' {
            if kw_at(s, i, seq!['e', 'm', 'p', 't', 'y']) {
                orangew(seq!['e', 'm', 'p', 't', 'y']) + spec_racket_hl(
                    s,
                    i + 5,
                    stack,
                    idx,
                    palette,
                )
            } else if kw_at(s, i, seq!['e', 'l', 's', 'e']) {
                orangew(seq!['e', 'l', 's', 'e']) + spec_racket_hl(s, i + 4, stack, idx, palette)
            } else {
                seq![c] + spec_racket_hl(s, i + 1, stack, idx, palette)
            }
        } else if c == 'i' {
            if kw_at(s, i, seq!['i', 'f']) {
                orangew(seq!['i', 'f']) + spec_racket_hl(s, i + 2, stack, idx, palette)
            } else {
                seq![c] + spec_racket_hl(s, i + 1, stack, idx, palette)
            }
        } else if c == 'l' {
            if kw_at(s, i, seq!['l', 'a', 'm', 'b', 'd', 'a']) {
                lbw(seq!['l', 'a', 'm', 'b', 'd', 'a']) + spec_racket_hl(
                    s,
                    i + 6,
                    stack,
                    idx,
                    palette,
                )
            } else if kw_at(s, i, seq!['l', 'e', 'n', 'g', 't', 'h']) {
                lbw(seq!['l', 'e', 'n', 'g', 't', 'h']) + spec_racket_hl(
                    s,
                    i + 6,
                    stack,
                    idx,
                    palette,
                )
            } else if kw_at(s, i, seq!['l', 'i', 's', 't']) {
                lbw(seq!['l', 'i', 's', 't']) + spec_racket_hl(s, i + 4, stack, idx, palette)
            } else if kw_at(s, i, seq!['l', 'e', 't']) {
                lbw(seq!['l', 'e', 't']) + spec_racket_hl(s, i + 3, stack, idx, palette)
            } else {
                seq![c] + spec_racket_hl(s, i + 1, stack, idx, palette)
            }
        } else if c == 'm' {
            if kw_at(s, i, seq!['m', 'p', 'a', 'i', 'r']) {
                redw(seq!['m', 'p', 'a', 'i', 'r']) + spec_racket_hl(s, i + 5, stack, idx, palette)
            } else if kw_at(s, i, seq!['m', 'c', 'o', 'n', 's']) {
                redw(seq!['m', 'c', 'o', 'n', 's']) + spec_racket_hl(s, i + 5, stack, idx, palette)
            } else if kw_at(s, i, seq!['m', 'c', 'a', 'r']) {
                redw(seq!['m', 'c', 'a', 'r']) + spec_racket_hl(s, i + 4, stack, idx, palette)
            } else if kw_at(s, i, seq!['m', 'c', 'd', 'r']) {
                redw(seq!['m', 'c', 'd', 'r']) + spec_racket_hl(s, i + 4, stack, idx, palette)
            } else {
                seq![c] + spec_racket_hl(s, i + 1, stack, idx, palette)
            }
        } else if c == 'n' {
            if kw_at(s, i, seq!['n', 'u', 'l', 'l']) {
                orangew(seq!['n', 'u', 'l', 'l']) + spec_racket_hl(s, i + 4, stack, idx, palette)
            } else {
                seq![c] + spec_racket_hl(s, i + 1, stack, idx, palette)
            }
        } else if c == 'p' {
            if kw_at(s, i, seq!['p', 'a', 'i', 'r']) {
                lbw(seq!['p', 'a', 'i', 'r']) + spec_racket_hl(s, i + 4, stack, idx, palette)
            } else {
                seq![c] + spec_racket_hl(s, i + 1, stack, idx, palette)
            }
        } else if c == 's' {
            if kw_at(s, i, seq!['s', 'e', 't', '-', 'm', 'c', 'd', 'r', '!']) {
                redw(seq!['s', 'e', 't', '-', 'm', 'c', 'd', 'r', '!']) + spec_racket_hl(
                    s,
                    i + 9,
                    stack,
                    idx,
                    palette,
                )
            } else if kw_at(s, i, seq!['s', 'e', 't', '-', 'm', 'c', 'a', 'r', '!']) {
                redw(seq!['s', 'e', 't', '-', 'm', 'c', 'a', 'r', '!']) + spec_racket_hl(
                    s,
                    i + 9,
                    stack,
                    idx,
                    palette,
                )
            } else if kw_at(s, i, seq!['s', 'e', 't', '!']) {
                redw(seq!['s', 'e', 't', '!']) + spec_racket_hl(s, i + 4, stack, idx, palette)
            } else {
                seq![c] + spec_racket_hl(s, i + 1, stack, idx, palette)
            }
        } else if c == '#' {
            if kw_at(s, i, seq!['#', 't']) {
                greenw(seq!['#', 't']) + spec_racket_hl(s, i + 2, stack, idx, palette)
            } else if kw_at(s, i, seq!['#', 'f']) {
                greenw(seq!['#', 'f']) + spec_racket_hl(s, i + 2, stack, idx, palette)
            } else {
                seq![c] + spec_racket_hl(s, i + 1, stack, idx, palette)
            }
        } else if is_yellow_op(c) {
            yelw(seq![c]) + spec_racket_hl(s, i + 1, stack, idx, palette)
        } else {
            seq![c] + spec_racket_hl(s, i + 1, stack, idx, palette)
        }
    }
}

/// Whether the pattern stands at position `i` of the line.
fn kw_test(cs: &Vec<char>, i: usize, pat: &Vec<char>) -> (r: bool)
    requires
        i <= cs@.len(),
    ensures
        r == kw_at(cs@, i as int, pat@),
{
    if pat.len() <= cs.len() - i {
        window_matches(cs, pat, i)
    } else {
        false
    }
}

/// Append every character of `piece` to `out`.
fn push_all(out: &mut Vec<char>, piece: &Vec<char>)
    ensures
        final(out)@ == old(out)@ + piece@,
{
    let ghost out0 = old(out)@;
    let mut i: usize = 0;
    proof {
        assert(out@ =~= out0 + piece@.take(0));
    }
    while i < piece.len()
        invariant
            i <= piece@.len(),
            out@ == out0 + piece@.take(i as int),
        decreases piece@.len() - i,
    {
        out.push(piece[i]);
        i = i + 1;
        proof {
            assert(piece@.take(i as int) =~= piece@.take(i - 1).push(piece@[i - 1]));
            assert(out0 + piece@.take(i as int) =~= (out0 + piece@.take(i - 1)).push(
                piece@[i - 1],
            ));
        }
    }
    proof {
        assert(piece@.take(piece@.len() as int) =~= piece@);
    }
}

impl BracketColorGen {
    /// Whether a palette colour is still available for the next opening
    /// bracket.
    pub fn has_colors(&self) -> (r: bool)
        ensures
            r == (self.handed_out() < self.palette().len()),
    {
        self.color_idx < self.colors.len()
    }
}

/// Colour a typed line for the Scheme REPL (see `spec_racket_hl`):
/// keywords by their leading character, operators yellow, each bracket
/// pair in its own palette colour.  Purely cosmetic: the line sent to
/// the interpreter is untouched.  For a fixed palette the result is a
/// function of the line alone, so repeated calls agree.
#[verifier::rlimit(100)]
pub fn highlight(line: &str, _pos: usize, palette: &Vec<(u8, u8, u8)>) -> (r: String)
    ensures
        r@ == spec_racket_hl(line@, 0, Seq::empty(), 0, palette@),
{
    let cs = chars_of(line);
    let mut pal: Vec<(u8, u8, u8)> = Vec::new();
    let mut t: usize = 0;
    while t < palette.len()
        invariant
            t <= palette@.len(),
            pal@ == palette@.take(t as int),
        decreases palette@.len() - t,
    {
        pal.push(palette[t]);
        t = t + 1;
        proof {
            assert(palette@.take(t as int) =~= palette@.take(t - 1).push(palette@[t - 1]));
        }
    }
    proof {
        assert(palette@.take(palette@.len() as int) =~= palette@);
    }
    let mut gen = BracketColorGen::new(pal);
    let lb_code: Vec<char> = vec!['1', ';', '9', '4'];
    let red_code: Vec<char> = vec!['1', ';', '3', '1'];
    let green_code: Vec<char> = vec!['1', ';', '3', '2'];
    let yellow_code: Vec<char> = vec!['1', ';', '3', '3'];
    let orange_code: Vec<char> = rgb_code_chars((255u8, 100u8, 0u8));
    let mut out: Vec<char> = Vec::new();
    let mut i: usize = 0;
    proof {
        assert(gen.stack() =~= Seq::<(u8, u8, u8)>::empty());
        assert(out@ + spec_racket_hl(line@, 0, gen.stack(), 0, palette@) =~= spec_racket_hl(
            line@,
            0,
            Seq::empty(),
            0,
            palette@,
        ));
    }
    while i < cs.len()
        invariant
            cs@ == line@,
            i <= cs@.len(),
            gen.palette() == palette@,
            lb_code@ == seq!['1', ';', '9', '4'],
            red_code@ == seq!['1', ';', '3', '1'],
            green_code@ == seq!['1', ';', '3', '2'],
            yellow_code@ == seq!['1', ';', '3', '3'],
            orange_code@ == rgb_code((255u8, 100u8, 0u8)),
            spec_racket_hl(line@, 0, Seq::empty(), 0, palette@) == out@ + spec_racket_hl(
                line@,
                i as int,
                gen.stack(),
                gen.handed_out() as int,
                palette@,
            ),
        decreases cs@.len() - i,
    {
        let ghost stack0 = gen.stack();
        let ghost idx0 = gen.handed_out() as int;
        let ghost out0 = out@;
        let ghost rest0 = spec_racket_hl(line@, i as int, stack0, idx0, palette@);
        let c = cs[i];
        if c == '(' || c == '[' {
            if gen.has_colors() {
                let piece = gen.next(c);
                let pc = chars_of(piece.as_str());
                push_all(&mut out, &pc);
                proof {
                    assert(rest0 == rgb_wrap(palette@[idx0], seq![c]) + spec_racket_hl(
                        line@,
                        i + 1,
                        stack0.push(palette@[idx0]),
                        idx0 + 1,
                        palette@,
                    ));
                    assert(out@ + spec_racket_hl(
                        line@,
                        i + 1,
                        gen.stack(),
                        gen.handed_out() as int,
                        palette@,
                    ) =~= out0 + rest0);
                }
            } else {
                out.push(c);
                proof {
                    assert(out@ + spec_racket_hl(line@, i + 1, gen.stack(), idx0, palette@)
                        =~= out0 + rest0);
                }
            }
            i = i + 1;
        } else if c == ')' || c == ']' {
            let piece = gen.rev(c);
            let pc = chars_of(piece.as_str());
            push_all(&mut out, &pc);
            proof {
                if stack0.len() > 0 {
                    assert(rest0 == rgb_wrap(stack0.last(), seq![c]) + spec_racket_hl(
                        line@,
                        i + 1,
                        stack0.drop_last(),
                        idx0,
                        palette@,
                    ));
                } else {
                    assert(rest0 == seq![c] + spec_racket_hl(line@, i + 1, stack0, idx0, palette@));
                }
                assert(out@ + spec_racket_hl(line@, i + 1, gen.stack(), idx0, palette@)
                    =~= out0 + rest0);
            }
            i = i + 1;
        } else if c == 'a' {
            let k1: Vec<char> = vec!['a', 'n', 'd'];
            if kw_test(&cs, i, &k1) {
                push_wrapped(&mut out, &lb_code, &k1);
                i = i + 3;
            } else {
                out.push(c);
                i = i + 1;
            }
            proof {
                assert(out@ + spec_racket_hl(line@, i as int, stack0, idx0, palette@)
                    =~= out0 + rest0);
            }
        } else if c == 'b' {
            let k1: Vec<char> = vec!['b', 'e', 'g', 'i', 'n'];
            if kw_test(&cs, i, &k1) {
                push_wrapped(&mut out, &lb_code, &k1);
                i = i + 5;
            } else {
                out.push(c);
                i = i + 1;
            }
            proof {
                assert(out@ + spec_racket_hl(line@, i as int, stack0, idx0, palette@)
                    =~= out0 + rest0);
            }
        } else if c == 'c' {
            let k1: Vec<char> = vec!['c', 'o', 'n', 's'];
            let k2: Vec<char> = vec!['c', 'a', 'r'];
            let k3: Vec<char> = vec!['c', 'd', 'r'];
            let k4: Vec<char> = vec!['c', 'o', 'n', 'd'];
            if kw_test(&cs, i, &k1) {
                push_wrapped(&mut out, &lb_code, &k1);
                i = i + 4;
            } else if kw_test(&cs, i, &k2) {
                push_wrapped(&mut out, &lb_code, &k2);
                i = i + 3;
            } else if kw_test(&cs, i, &k3) {
                push_wrapped(&mut out, &lb_code, &k3);
                i = i + 3;
            } else if kw_test(&cs, i, &k4) {
                push_wrapped(&mut out, &lb_code, &k4);
                i = i + 4;
            } else {
                out.push(c);
                i = i + 1;
            }
            proof {
                assert(out@ + spec_racket_hl(line@, i as int, stack0, idx0, palette@)
                    =~= out0 + rest0);
            }
        } else if c == 'd' {
            let k1: Vec<char> = vec!['d', 'e', 'f', 'i', 'n', 'e'];
            if kw_test(&cs, i, &k1) {
                push_wrapped(&mut out, &lb_code, &k1);
                i = i + 6;
            } else {
                out.push(c);
                i = i + 1;
            }
            proof {
                assert(out@ + spec_racket_hl(line@, i as int, stack0, idx0, palette@)
                    =~= out0 + rest0);
            }
        } else if c == 'e' {
            let k1: Vec<char> = vec!['e', 'm', 'p', 't', 'y'];
            let k2: Vec<char> = vec!['e', 'l', 's', 'e'];
            if kw_test(&cs, i, &k1) {
                push_wrapped(&mut out, &orange_code, &k1);
                i = i + 5;
            } else if kw_test(&cs, i, &k2) {
                push_wrapped(&mut out, &orange_code, &k2);
                i = i + 4;
            } else {
                out.push(c);
                i = i + 1;
            }
            proof {
                assert(out@ + spec_racket_hl(line@, i as int, stack0, idx0, palette@)
                    =~= out0 + rest0);
            }
        } else if c == 'i' {
            let k1: Vec<char> = vec!['i', 'f'];
            if kw_test(&cs, i, &k1) {
                push_wrapped(&mut out, &orange_code, &k1);
                i = i + 2;
            } else {
                out.push(c);
                i = i + 1;
            }
            proof {
                assert(out@ + spec_racket_hl(line@, i as int, stack0, idx0, palette@)
                    =~= out0 + rest0);
            }
        } else if c == 'l' {
            let k1: Vec<char> = vec!['l', 'a', 'm', 'b', 'd', 'a'];
            let k2: Vec<char> = vec!['l', 'e', 'n', 'g', 't', 'h'];
            let k3: Vec<char> = vec!['l', 'i', 's', 't'];
            let k4: Vec<char> = vec!['l', 'e', 't'];
            if kw_test(&cs, i, &k1) {
                push_wrapped(&mut out, &lb_code, &k1);
                i = i + 6;
            } else if kw_test(&cs, i, &k2) {
                push_wrapped(&mut out, &lb_code, &k2);
                i = i + 6;
            } else if kw_test(&cs, i, &k3) {
                push_wrapped(&mut out, &lb_code, &k3);
                i = i + 4;
            } else if kw_test(&cs, i, &k4) {
                push_wrapped(&mut out, &lb_code, &k4);
                i = i + 3;
            } else {
                out.push(c);
                i = i + 1;
            }
            proof {
                assert(out@ + spec_racket_hl(line@, i as int, stack0, idx0, palette@)
                    =~= out0 + rest0);
            }
        } else if c == 'm' {
            let k1: Vec<char> = vec!['m', 'p', 'a', 'i', 'r'];
            let k2: Vec<char> = vec!['m', 'c', 'o', 'n', 's'];
            let k3: Vec<char> = vec!['m', 'c', 'a', 'r'];
            let k4: Vec<char> = vec!['m', 'c', 'd', 'r'];
            if kw_test(&cs, i, &k1) {
                push_wrapped(&mut out, &red_code, &k1);
                i = i + 5;
            } else if kw_test(&cs, i, &k2) {
                push_wrapped(&mut out, &red_code, &k2);
                i = i + 5;
            } else if kw_test(&cs, i, &k3) {
                push_wrapped(&mut out, &red_code, &k3);
                i = i + 4;
            } else if kw_test(&cs, i, &k4) {
                push_wrapped(&mut out, &red_code, &k4);
                i = i + 4;
            } else {
                out.push(c);
                i = i + 1;
            }
            proof {
                assert(out@ + spec_racket_hl(line@, i as int, stack0, idx0, palette@)
                    =~= out0 + rest0);
            }
        } else if c == 'n' {
            let k1: Vec<char> = vec!['n', 'u', 'l', 'l'];
            if kw_test(&cs, i, &k1) {
                push_wrapped(&mut out, &orange_code, &k1);
                i = i + 4;
            } else {
                out.push(c);
                i = i + 1;
            }
            proof {
                assert(out@ + spec_racket_hl(line@, i as int, stack0, idx0, palette@)
                    =~= out0 + rest0);
            }
        } else if c == 'p' {
            let k1: Vec<char> = vec!['p', 'a', 'i', 'r'];
            if kw_test(&cs, i, &k1) {
                push_wrapped(&mut out, &lb_code, &k1);
                i = i + 4;
            } else {
                out.push(c);
                i = i + 1;
            }
            proof {
                assert(out@ + spec_racket_hl(line@, i as int, stack0, idx0, palette@)
                    =~= out0 + rest0);
            }
        } else if c == 's' {
            let k1: Vec<char> = vec!['s', 'e', 't', '-', 'm', 'c', 'd', 'r', '!'];
            let k2: Vec<char> = vec!['s', 'e', 't', '-', 'm', 'c', 'a', 'r', '!'];
            let k3: Vec<char> = vec!['s', 'e', 't', '!'];
            if kw_test(&cs, i, &k1) {
                push_wrapped(&mut out, &red_code, &k1);
                i = i + 9;
            } else if kw_test(&cs, i, &k2) {
                push_wrapped(&mut out, &red_code, &k2);
                i = i + 9;
            } else if kw_test(&cs, i, &k3) {
                push_wrapped(&mut out, &red_code, &k3);
                i = i + 4;
            } else {
                out.push(c);
                i = i + 1;
            }
            proof {
                assert(out@ + spec_racket_hl(line@, i as int, stack0, idx0, palette@)
                    =~= out0 + rest0);
            }
        } else if c == '#' {
            let k1: Vec<char> = vec!['#', 't'];
            let k2: Vec<char> = vec!['#', 'f'];
            if kw_test(&cs, i, &k1) {
                push_wrapped(&mut out, &green_code, &k1);
                i = i + 2;
            } else if kw_test(&cs, i, &k2) {
                push_wrapped(&mut out, &green_code, &k2);
                i = i + 2;
            } else {
                out.push(c);
                i = i + 1;
            }
            proof {
                assert(out@ + spec_racket_hl(line@, i as int, stack0, idx0, palette@)
                    =~= out0 + rest0);
            }
        } else if c == '+' || c == '-' || c == '/' || c == '*' || c == '=' || c == '"' || c == '?' {
            let k1: Vec<char> = vec![c];
            push_wrapped(&mut out, &yellow_code, &k1);
            i = i + 1;
            proof {
                assert(k1@ =~= seq![c]);
                assert(out@ + spec_racket_hl(line@, i as int, stack0, idx0, palette@)
                    =~= out0 + rest0);
            }
        } else {
            out.push(c);
            i = i + 1;
            proof {
                assert(out@ + spec_racket_hl(line@, i as int, stack0, idx0, palette@)
                    =~= out0 + rest0);
            }
        }
    }
    proof {
        assert(spec_racket_hl(line@, cs@.len() as int, gen.stack(), gen.handed_out() as int, palette@)
            =~= Seq::<char>::empty());
        assert(out@ + Seq::<char>::empty() =~= out@);
    }
    string_of_chars(&out)
}

} // verus!
