//! Byte- and word-level helpers used by the completion machinery: a
//! substring test on byte vectors and a splitter that cuts a line into
//! its alphanumeric words.

use crate::text::chars_of;
use crate::text::string_of_chars;
use vstd::prelude::*;

verus! {

/// What `char::is_alphanumeric` returns; it depends on the character
/// alone.
pub uninterp spec fn spec_alphanumeric(c: char) -> bool;

/// Relies on char::is_alphanumeric from std.
pub assume_specification[ char::is_alphanumeric ](c: char) -> (r: bool)
    ensures
        r == spec_alphanumeric(c),
;

/// `needle` occurs in `hay` with at least one byte following it.  (A
/// match that runs to the very end of `hay` does not count: the test is
/// for an interior occurrence.)
pub open spec fn spec_contains_slice(hay: Seq<u8>, needle: Seq<u8>) -> bool {
    exists|p: int|
        0 <= p && p + needle.len() < hay.len() && #[trigger] hay.subrange(p, p + needle.len())
            == needle
}

/// A byte-vector extension: searching for a slice inside it.
pub trait VecTools {
    /// Whether the vector holds `slice` as an interior occurrence.
    spec fn contains_slice_view(&self, slice: Seq<u8>) -> bool;

    /// Search for `slice`; an occurrence touching the very end of the
    /// vector is not reported.
    fn contains_slice(&self, slice: &[u8]) -> (r: bool)
        requires
            slice@.len() > 0,
        ensures
            r == self.contains_slice_view(slice@),
    ;
}

impl VecTools for Vec<u8> {
    open spec fn contains_slice_view(&self, slice: Seq<u8>) -> bool {
        spec_contains_slice(self@, slice)
    }

    fn contains_slice(&self, slice: &[u8]) -> (r: bool) {
        let mut idx: usize = 0;
        loop
            invariant
                slice@.len() > 0,
                idx <= self@.len(),
                forall|p: int|
                    0 <= p < idx ==> !(p + slice@.len() < self@.len() && #[trigger] self@.subrange(
                        p,
                        p + slice@.len(),
                    ) == slice@),
            decreases self@.len() - idx,
        {
            if idx == self.len() {
                return false;
            }
            if self[idx] == slice[0] {
                if slice.len() >= self.len() - idx {
                    proof {
                        assert forall|p: int|
                            !(0 <= p && p + slice@.len() < self@.len() && #[trigger] self@.subrange(
                                p,
                                p + slice@.len(),
                            ) == slice@) by {
                            if idx <= p && p + slice@.len() < self@.len() {
                                assert(p + slice@.len() >= idx + slice@.len() >= self@.len());
                            }
                        }
                    }
                    return false;
                }
                let mut j: usize = 0;
                let mut all_eq = true;
                while j < slice.len()
                    invariant
                        idx + slice@.len() < self@.len(),
                        j <= slice@.len(),
                        all_eq == forall|q: int| 0 <= q < j ==> self@[idx + q] == slice@[q],
                    decreases slice@.len() - j,
                {
                    let n = self.len();
                    assert(idx + j < n);
                    if self[idx + j] != slice[j] {
                        all_eq = false;
                        proof {
                            assert(!(self@[idx + j] == slice@[j as int]));
                        }
                        j = slice.len();
                    } else {
                        j = j + 1;
                    }
                }
                if all_eq {
                    proof {
                        assert(self@.subrange(idx as int, idx + slice@.len()) =~= slice@);
                    }
                    return true;
                }
                proof {
                    let q = choose|q: int| !(0 <= q < slice@.len() ==> self@[idx + q] == slice@[q]);
                    assert(self@.subrange(idx as int, idx + slice@.len())[q] == self@[idx + q]);
                }
            }
            idx = idx + 1;
        }
    }
}

/// A word character: alphanumeric, or an underscore.
pub open spec fn word_char(c: char) -> bool {
    spec_alphanumeric(c) || c == '_'
}

/// The words of `s` (maximal runs of word characters), accumulating the
/// word currently being read.
pub open spec fn split_words_acc(s: Seq<char>, cur: Seq<char>) -> Seq<Seq<char>>
    decreases s.len(),
{
    if s.len() == 0 {
        if cur.len() == 0 {
            Seq::empty()
        } else {
            seq![cur]
        }
    } else if word_char(s[0]) {
        split_words_acc(s.skip(1), cur.push(s[0]))
    } else if cur.len() == 0 {
        split_words_acc(s.skip(1), Seq::empty())
    } else {
        seq![cur] + split_words_acc(s.skip(1), Seq::empty())
    }
}

/// The words of `s`: its maximal runs of word characters, in order.
pub open spec fn split_words(s: Seq<char>) -> Seq<Seq<char>> {
    split_words_acc(s, Seq::empty())
}

/// A cursor over the characters of a line that yields one word at a time.
pub struct SplitNonAlphanumeric {
    chars: Vec<char>,
    pos: usize,
}

impl SplitNonAlphanumeric {
    /// The characters not yet consumed.
    pub closed spec fn remaining(&self) -> Seq<char> {
        self.chars@.skip(self.pos as int)
    }

    pub closed spec fn wf(&self) -> bool {
        self.pos <= self.chars@.len()
    }

    pub fn new(buffer: Vec<char>) -> (s: Self)
        ensures
            s.wf(),
            s.remaining() == buffer@,
    {
        let s = SplitNonAlphanumeric { chars: buffer, pos: 0 };
        proof {
            assert(s.chars@.skip(0) =~= s.chars@);
        }
        s
    }

    /// The next word: the first maximal run of word characters in the
    /// remaining input, with the input left right after it.
    pub fn next(&mut self) -> (r: Option<String>)
        requires
            old(self).wf(),
        ensures
            final(self).wf(),
            (r is Some) <==> split_words(old(self).remaining()).len() > 0,
            r is Some ==> r.unwrap()@ == split_words(old(self).remaining())[0]
                && split_words(final(self).remaining()) == split_words(
                old(self).remaining(),
            ).skip(1) && final(self).remaining().len() < old(self).remaining().len(),
            r is None ==> final(self).remaining().len() == 0,
    {
        let ghost rem0 = old(self).remaining();
        // Skip any separators before the word.
        while self.pos < self.chars.len() && !(self.chars[self.pos].is_alphanumeric()
            || self.chars[self.pos] == '_')
            invariant
                self.chars == old(self).chars,
                self.pos <= self.chars@.len(),
                old(self).pos <= self.pos,
                split_words(self.remaining()) == split_words(rem0),
            decreases self.chars@.len() - self.pos,
        {
            proof {
                assert(self.chars@.skip(self.pos as int).skip(1) =~= self.chars@.skip(
                    self.pos + 1,
                ));
            }
            self.pos = self.pos + 1;
        }
        if self.pos == self.chars.len() {
            proof {
                assert(self.remaining() =~= Seq::<char>::empty());
            }
            return Option::None;
        }
        // Collect the word.
        let ghost remw = self.remaining();
        let mut w: Vec<char> = Vec::new();
        while self.pos < self.chars.len() && (self.chars[self.pos].is_alphanumeric()
            || self.chars[self.pos] == '_')
            invariant
                self.chars == old(self).chars,
                self.pos <= self.chars@.len(),
                old(self).pos <= self.pos,
                w@.len() > 0 ==> old(self).pos < self.pos,
                split_words(rem0) == split_words_acc(self.remaining(), w@),
                w@.len() > 0 || self.remaining() == remw,
                remw.len() > 0 && word_char(remw[0]),
                w@.len() + self.remaining().len() == remw.len(),
            decreases self.chars@.len() - self.pos,
        {
            proof {
                assert(self.chars@.skip(self.pos as int).skip(1) =~= self.chars@.skip(
                    self.pos + 1,
                ));
            }
            w.push(self.chars[self.pos]);
            self.pos = self.pos + 1;
        }
        proof {
            if self.pos == self.chars@.len() {
                assert(self.remaining() =~= Seq::<char>::empty());
                assert(split_words_acc(self.remaining(), w@) =~= seq![w@]);
            } else {
                assert(!word_char(self.remaining()[0]));
                assert(split_words_acc(self.remaining(), w@) == seq![w@] + split_words(
                    self.remaining(),
                ));
            }
            assert(w@.len() > 0);
            assert(split_words(rem0)[0] == w@);
            assert(split_words(rem0).skip(1) =~= split_words(final(self).remaining()));
        }
        Option::Some(string_of_chars(&w))
    }
}

/// A string extension: cutting a line into its alphanumeric words.
pub trait StringTools {
    /// The words this text splits into.
    spec fn split_view(&self) -> Seq<Seq<char>>;

    /// The maximal runs of alphanumeric-or-underscore characters, in
    /// order.
    fn split_non_alphanumeric(&self) -> (parts: Vec<String>)
        ensures
            parts.deep_view() == self.split_view(),
    ;
}

impl StringTools for str {
    open spec fn split_view(&self) -> Seq<Seq<char>> {
        split_words(self@)
    }

    fn split_non_alphanumeric(&self) -> (parts: Vec<String>) {
        let ghost total = split_words(self@);
        let mut it = SplitNonAlphanumeric::new(chars_of(self));
        let mut parts: Vec<String> = Vec::new();
        proof {
            assert(parts.deep_view() =~= total.take(0));
        }
        loop
            invariant
                it.wf(),
                total == split_words(self@),
                parts.deep_view() == total.take(parts@.len() as int),
                parts@.len() <= total.len(),
                split_words(it.remaining()) == total.skip(parts@.len() as int),
            decreases it.remaining().len(),
        {
            let ghost before = parts.deep_view();
            match it.next() {
                Option::Some(word) => {
                    proof {
                        assert(total.skip(parts@.len() as int)[0] == total[parts@.len() as int]);
                        assert(total.skip(parts@.len() as int).skip(1) =~= total.skip(
                            parts@.len() as int + 1,
                        ));
                    }
                    parts.push(word);
                    proof {
                        assert(parts.deep_view() =~= before.push(word@));
                        assert(parts.deep_view() =~= total.take(parts@.len() as int));
                    }
                },
                Option::None => {
                    proof {
                        assert(total.skip(parts@.len() as int).len() == 0);
                        assert(parts@.len() == total.len());
                        assert(parts.deep_view() =~= total);
                    }
                    return parts;
                },
            }
        }
    }
}

} // verus!
