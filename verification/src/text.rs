//! Small verified text helpers: moving between `&str`, `Vec<char>` and
//! `String` without losing track of the character sequence.

use vstd::prelude::*;
use vstd::string::StrSliceExecFns;

verus! {

/// The characters of a string slice, as a vector.
pub fn chars_of(s: &str) -> (v: Vec<char>)
    ensures
        v@ == s@,
{
    let n = s.unicode_len();
    let mut v: Vec<char> = Vec::new();
    let mut i: usize = 0;
    proof {
        assert(s@.take(0) =~= Seq::<char>::empty());
    }
    while i < n
        invariant
            i <= n,
            n == s@.len(),
            v@ == s@.take(i as int),
        decreases n - i,
    {
        let c = s.get_char(i);
        v.push(c);
        i = i + 1;
        proof {
            assert(s@.take(i as int) =~= s@.take(i - 1).push(s@[i - 1]));
        }
    }
    proof {
        assert(s@.take(n as int) =~= s@);
    }
    v
}

/// Relies on String::push: appends exactly the given character.
#[verifier::external_body]
pub fn push_char(s: &mut String, c: char)
    ensures
        final(s)@ == old(s)@.push(c),
{
    s.push(c);
}

/// A `String` holding exactly the given characters.
pub fn string_of_chars(v: &Vec<char>) -> (s: String)
    ensures
        s@ == v@,
{
    let mut s = String::new();
    let mut i: usize = 0;
    proof {
        assert(v@.take(0) =~= Seq::<char>::empty());
    }
    while i < v.len()
        invariant
            i <= v.len(),
            s@ == v@.take(i as int),
        decreases v.len() - i,
    {
        push_char(&mut s, v[i]);
        i = i + 1;
        proof {
            assert(v@.take(i as int) =~= v@.take(i - 1).push(v@[i - 1]));
        }
    }
    proof {
        assert(v@.take(v@.len() as int) =~= v@);
    }
    s
}

/// `s` with every occurrence of `from` replaced by `to`: occurrences are
/// found left to right and do not overlap; an empty pattern replaces
/// nothing.
pub open spec fn spec_replace(s: Seq<char>, from: Seq<char>, to: Seq<char>) -> Seq<char>
    decreases s.len(),
{
    if from.len() == 0 || s.len() < from.len() {
        s
    } else if s.take(from.len() as int) == from {
        to + spec_replace(s.skip(from.len() as int), from, to)
    } else {
        seq![s[0]] + spec_replace(s.skip(1), from, to)
    }
}

/// Whether `pat` occurs in `s` starting at position `i`.
pub(crate) fn window_matches(s: &Vec<char>, pat: &Vec<char>, i: usize) -> (r: bool)
    requires
        i + pat@.len() <= s@.len(),
    ensures
        r == (s@.subrange(i as int, i + pat@.len()) == pat@),
{
    let mut j: usize = 0;
    while j < pat.len()
        invariant
            i + pat@.len() <= s@.len(),
            j <= pat@.len(),
            forall|q: int| 0 <= q < j ==> s@[i + q] == pat@[q],
        decreases pat@.len() - j,
    {
        let n = s.len();
        assert(i + j < n);
        if s[i + j] != pat[j] {
            proof {
                assert(s@.subrange(i as int, i + pat@.len())[j as int] == s@[i + j]);
            }
            return false;
        }
        j = j + 1;
    }
    proof {
        assert(s@.subrange(i as int, i + pat@.len()) =~= pat@);
    }
    true
}

/// Replace every occurrence of `from` in `s` by `to`, left to right,
/// without overlap (see `spec_replace`).
pub fn replace(s: &str, from: &str, to: &str) -> (r: String)
    requires
        from@.len() > 0,
    ensures
        r@ == spec_replace(s@, from@, to@),
{
    let sc = chars_of(s);
    let fc = chars_of(from);
    let tc = chars_of(to);
    let mut out: Vec<char> = Vec::new();
    let mut i: usize = 0;
    proof {
        assert(s@.skip(0) =~= s@);
        assert(out@ + spec_replace(s@.skip(0), from@, to@) =~= spec_replace(s@, from@, to@));
    }
    while i < sc.len()
        invariant
            sc@ == s@,
            fc@ == from@,
            tc@ == to@,
            from@.len() > 0,
            i <= sc@.len(),
            spec_replace(s@, from@, to@) == out@ + spec_replace(s@.skip(i as int), from@, to@),
        decreases sc@.len() - i,
    {
        let ghost rem = s@.skip(i as int);
        let matched = if fc.len() <= sc.len() - i {
            window_matches(&sc, &fc, i)
        } else {
            false
        };
        if matched {
            proof {
                assert(rem.take(from@.len() as int) =~= s@.subrange(i as int, i + from@.len()));
                assert(rem.skip(from@.len() as int) =~= s@.skip(i + from@.len()));
                assert(spec_replace(rem, from@, to@) == to@ + spec_replace(
                    s@.skip(i + from@.len()),
                    from@,
                    to@,
                ));
            }
            let ghost out0 = out@;
            let mut j: usize = 0;
            while j < tc.len()
                invariant
                    tc@ == to@,
                    j <= tc@.len(),
                    out@ == out0 + to@.take(j as int),
                decreases tc@.len() - j,
            {
                out.push(tc[j]);
                j = j + 1;
                proof {
                    assert(to@.take(j as int) =~= to@.take(j - 1).push(to@[j - 1]));
                }
            }
            proof {
                assert(to@.take(to@.len() as int) =~= to@);
                assert(out0 + to@ + spec_replace(s@.skip(i + from@.len()), from@, to@)
                    =~= out0 + spec_replace(rem, from@, to@));
            }
            i = i + fc.len();
        } else {
            proof {
                if rem.len() < from@.len() {
                    assert(spec_replace(rem, from@, to@) == rem);
                    assert(spec_replace(s@.skip(i + 1), from@, to@) == s@.skip(i + 1));
                    assert(rem =~= seq![s@[i as int]] + s@.skip(i + 1));
                } else {
                    assert(rem.take(from@.len() as int) =~= s@.subrange(
                        i as int,
                        i + from@.len(),
                    ));
                    assert(rem.take(from@.len() as int) != from@);
                    assert(rem.skip(1) =~= s@.skip(i + 1));
                    assert(rem[0] == s@[i as int]);
                }
                assert(spec_replace(rem, from@, to@) == seq![s@[i as int]] + spec_replace(
                    s@.skip(i + 1),
                    from@,
                    to@,
                ));
                assert(out@.push(s@[i as int]) + spec_replace(s@.skip(i + 1), from@, to@)
                    =~= out@ + spec_replace(rem, from@, to@));
            }
            out.push(sc[i]);
            i = i + 1;
        }
    }
    proof {
        assert(s@.skip(sc@.len() as int) =~= Seq::<char>::empty());
        assert(out@ + spec_replace(Seq::<char>::empty(), from@, to@) =~= out@);
    }
    string_of_chars(&out)
}

} // verus!
