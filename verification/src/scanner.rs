//! Incremental search of a byte stream for a fixed prompt marker.
//!
//! The scanner keeps a single match counter across reads, so a marker that
//! straddles two or more physical reads is still found.  On a byte that
//! does not continue the current partial match the counter restarts (at 1
//! when the byte itself opens a new match, else at 0) without re-scanning
//! the bytes already consumed; a marker whose first byte recurs inside it
//! can therefore be missed.  This is the documented limitation of the
//! design, and the detection lemma below assumes a marker free of it.

use vstd::prelude::*;

verus! {

/// One transition of the match automaton: the state is how many marker
/// bytes are currently matched; a completed match (state == marker length)
/// is absorbing.
pub open spec fn scan_step(marker: Seq<u8>, st: nat, b: u8) -> nat {
    if st >= marker.len() {
        st
    } else if b == marker[st as int] {
        (st + 1) as nat
    } else if marker.len() > 0 && b == marker[0] {
        1
    } else {
        0
    }
}

/// The automaton state after reading all of `s`, starting from `st`.
pub open spec fn scan_fold(marker: Seq<u8>, st: nat, s: Seq<u8>) -> nat
    decreases s.len(),
{
    if s.len() == 0 {
        st
    } else {
        scan_fold(marker, scan_step(marker, st, s[0]), s.skip(1))
    }
}

/// How many bytes of `s` a scan starting in state `st` consumes: all of
/// them, unless the marker completes first, in which case consumption
/// stops at the byte that completed it.
pub open spec fn scan_consumed(marker: Seq<u8>, st: nat, s: Seq<u8>) -> int
    decreases s.len(),
{
    if s.len() == 0 {
        0
    } else {
        let st2 = scan_step(marker, st, s[0]);
        if st2 == marker.len() {
            1
        } else {
            1 + scan_consumed(marker, st2, s.skip(1))
        }
    }
}

/// A scan that starts in `st` finds the marker somewhere in `s`.
pub open spec fn scan_found(marker: Seq<u8>, st: nat, s: Seq<u8>) -> bool {
    scan_fold(marker, st, s) == marker.len()
}

/// A marker whose first byte occurs nowhere else in it.  For such a marker
/// the restart-at-zero scan is exact: no partial match can hide an
/// overlapping occurrence.
pub open spec fn head_unique(marker: Seq<u8>) -> bool {
    forall|i: int| 1 <= i < marker.len() ==> #[trigger] marker[i] != marker[0]
}

/// `needle` occurs in `hay` at position `p`.
pub open spec fn occurs_at(hay: Seq<u8>, needle: Seq<u8>, p: int) -> bool {
    0 <= p && p + needle.len() <= hay.len() && hay.subrange(p, p + needle.len()) == needle
}

/// `needle` occurs somewhere in `hay`.
pub open spec fn occurs(hay: Seq<u8>, needle: Seq<u8>) -> bool {
    exists|p: int| occurs_at(hay, needle, p)
}

/// A completed state stays completed whatever else is read.
pub proof fn lemma_fold_absorb(marker: Seq<u8>, st: nat, s: Seq<u8>)
    requires
        st >= marker.len(),
    ensures
        scan_fold(marker, st, s) == st,
    decreases s.len(),
{
    if s.len() > 0 {
        lemma_fold_absorb(marker, st, s.skip(1));
    }
}

/// Reading one more byte after `s` advances the folded state by one step.
pub proof fn lemma_fold_snoc(marker: Seq<u8>, st: nat, s: Seq<u8>, b: u8)
    ensures
        scan_fold(marker, st, s.push(b)) == scan_step(marker, scan_fold(marker, st, s), b),
    decreases s.len(),
{
    if s.len() == 0 {
        assert(s.push(b)[0] == b);
        assert(s.push(b).skip(1) =~= Seq::<u8>::empty());
        assert(scan_fold(marker, st, s.push(b)) == scan_fold(
            marker,
            scan_step(marker, st, b),
            s.push(b).skip(1),
        ));
    } else {
        assert(s.push(b)[0] == s[0]);
        assert(s.push(b).skip(1) =~= s.skip(1).push(b));
        assert(scan_fold(marker, st, s.push(b)) == scan_fold(
            marker,
            scan_step(marker, st, s[0]),
            s.skip(1).push(b),
        ));
        lemma_fold_snoc(marker, scan_step(marker, st, s[0]), s.skip(1), b);
    }
}

/// The state after a concatenation is the state of the second part started
/// from the state of the first: the fold composes.
pub proof fn lemma_fold_app(marker: Seq<u8>, st: nat, a: Seq<u8>, b: Seq<u8>)
    ensures
        scan_fold(marker, st, a + b) == scan_fold(marker, scan_fold(marker, st, a), b),
    decreases a.len(),
{
    if a.len() == 0 {
        assert(a + b =~= b);
    } else {
        assert((a + b)[0] == a[0]);
        assert((a + b).skip(1) =~= a.skip(1) + b);
        lemma_fold_app(marker, scan_step(marker, st, a[0]), a.skip(1), b);
    }
}

/// Chunk-boundary independence: splitting the input at any offset changes
/// neither the final state nor the number of bytes consumed.  Scanning
/// `a` and then `b` from the state `a` left behind is the same as scanning
/// `a + b` in one read.
pub proof fn lemma_chunk_boundary(marker: Seq<u8>, st: nat, a: Seq<u8>, b: Seq<u8>)
    ensures
        scan_fold(marker, st, a + b) == scan_fold(marker, scan_fold(marker, st, a), b),
        st != marker.len() && scan_found(marker, st, a) ==> scan_consumed(marker, st, a + b)
            == scan_consumed(marker, st, a),
        st != marker.len() && !scan_found(marker, st, a) ==> scan_consumed(marker, st, a + b)
            == a.len() + scan_consumed(marker, scan_fold(marker, st, a), b),
    decreases a.len(),
{
    lemma_fold_app(marker, st, a, b);
    if a.len() == 0 {
        assert(a + b =~= b);
    } else {
        let st2 = scan_step(marker, st, a[0]);
        assert((a + b)[0] == a[0]);
        assert((a + b).skip(1) =~= a.skip(1) + b);
        lemma_chunk_boundary(marker, st2, a.skip(1), b);
        if st2 == marker.len() {
            lemma_fold_absorb(marker, st2, a.skip(1));
        }
    }
}

/// Soundness of the match counter: as long as no scan of a prefix has
/// completed, the counter equals the length of a marker prefix that the
/// stream currently ends with.
pub proof fn lemma_state_is_suffix(marker: Seq<u8>, s: Seq<u8>)
    requires
        marker.len() > 0,
        forall|p: int|
            0 <= p < s.len() ==> (#[trigger] scan_fold(marker, 0, s.take(p))) < marker.len(),
    ensures
        scan_fold(marker, 0, s) <= s.len(),
        scan_fold(marker, 0, s) <= marker.len(),
        s.skip(s.len() - scan_fold(marker, 0, s)) == marker.take(scan_fold(marker, 0, s) as int),
    decreases s.len(),
{
    if s.len() == 0 {
        assert(s.skip(0) =~= marker.take(0));
    } else {
        let s0 = s.drop_last();
        let b = s.last();
        assert(s =~= s0.push(b));
        assert forall|p: int| 0 <= p < s0.len() implies (#[trigger] scan_fold(
            marker,
            0,
            s0.take(p),
        )) < marker.len() by {
            assert(s0.take(p) =~= s.take(p));
        }
        lemma_state_is_suffix(marker, s0);
        let k0 = scan_fold(marker, 0, s0);
        assert(s0.take(s0.len() as int) =~= s0);
        assert(s.take(s.len() - 1) =~= s0);
        assert(k0 < marker.len());
        lemma_fold_snoc(marker, 0, s0, b);
        let k = scan_fold(marker, 0, s);
        assert(k == scan_step(marker, k0, b));
        if b == marker[k0 as int] {
            assert(k == k0 + 1);
            assert(s.skip(s.len() - k) =~= s0.skip(s0.len() - k0).push(b));
            assert(marker.take(k as int) =~= marker.take(k0 as int).push(marker[k0 as int]));
        } else if b == marker[0] {
            assert(k == 1);
            assert(s.skip(s.len() - 1) =~= seq![b]);
            assert(marker.take(1) =~= seq![marker[0]]);
        } else {
            assert(k == 0);
            assert(s.skip(s.len() as int) =~= marker.take(0));
        }
    }
}

/// A scan never completes without a true occurrence of the marker: on a
/// stream that does not contain the marker, every prefix leaves the
/// counter short of completion.
pub proof fn lemma_no_completion(marker: Seq<u8>, o: Seq<u8>, p: int)
    requires
        marker.len() > 0,
        !occurs(o, marker),
        0 <= p <= o.len(),
    ensures
        forall|q: int|
            0 <= q <= p ==> (#[trigger] scan_fold(marker, 0, o.take(q))) < marker.len(),
    decreases p,
{
    if p == 0 {
        assert(o.take(0) =~= Seq::<u8>::empty());
    } else {
        lemma_no_completion(marker, o, p - 1);
        let kp = scan_fold(marker, 0, o.take(p - 1));
        assert(o.take(p) =~= o.take(p - 1).push(o[p - 1]));
        lemma_fold_snoc(marker, 0, o.take(p - 1), o[p - 1]);
        let k = scan_fold(marker, 0, o.take(p));
        assert(k == scan_step(marker, kp, o[p - 1]));
        if k == marker.len() {
            assert forall|q: int| 0 <= q < o.take(p).len() implies (#[trigger] scan_fold(
                marker,
                0,
                o.take(p).take(q),
            )) < marker.len() by {
                assert(o.take(p).take(q) =~= o.take(q));
            }
            lemma_state_is_suffix(marker, o.take(p));
            let start = p - marker.len();
            assert(o.take(p).skip(start) =~= o.subrange(start, p));
            assert(marker.take(marker.len() as int) =~= marker);
            assert(occurs_at(o, marker, start));
            assert(false);
        }
        assert forall|q: int| 0 <= q <= p implies (#[trigger] scan_fold(marker, 0, o.take(q)))
            < marker.len() by {
            if q == p {
                assert(scan_fold(marker, 0, o.take(p)) < marker.len());
            }
        }
    }
}

/// Scanning the marker itself after a stream free of it walks the counter
/// straight up: after `j` marker bytes the counter is exactly `j`.  Needs
/// a marker whose first byte occurs only once in it; otherwise a partial
/// match left over from the stream could mask the true start.
proof fn lemma_marker_run(marker: Seq<u8>, o: Seq<u8>, j: int)
    requires
        marker.len() > 0,
        head_unique(marker),
        scan_fold(marker, 0, o) < marker.len(),
        1 <= j <= marker.len(),
    ensures
        scan_fold(marker, 0, o + marker.take(j)) == j,
    decreases j,
{
    if j == 1 {
        assert(o + marker.take(1) =~= o.push(marker[0]));
        lemma_fold_snoc(marker, 0, o, marker[0]);
        let k = scan_fold(marker, 0, o);
        if k > 0 {
            assert(marker[k as int] != marker[0]);
        }
    } else {
        lemma_marker_run(marker, o, j - 1);
        assert(o + marker.take(j) =~= (o + marker.take(j - 1)).push(marker[j - 1]));
        lemma_fold_snoc(marker, 0, o + marker.take(j - 1), marker[j - 1]);
    }
}

/// Where consumption stops: on a successful scan the consumed prefix is
/// the shortest one that completes the marker; on an unsuccessful one the
/// whole input is consumed.
pub proof fn lemma_consumed_first(marker: Seq<u8>, st: nat, s: Seq<u8>)
    requires
        st < marker.len(),
    ensures
        0 <= scan_consumed(marker, st, s) <= s.len(),
        scan_found(marker, st, s) ==> scan_fold(
            marker,
            st,
            s.take(scan_consumed(marker, st, s)),
        ) == marker.len(),
        scan_found(marker, st, s) ==> forall|p: int|
            0 <= p < scan_consumed(marker, st, s) ==> (#[trigger] scan_fold(marker, st, s.take(p)))
                < marker.len(),
        !scan_found(marker, st, s) ==> scan_consumed(marker, st, s) == s.len(),
    decreases s.len(),
{
    if s.len() == 0 {
    } else {
        let st2 = scan_step(marker, st, s[0]);
        let tail = s.skip(1);
        if st2 == marker.len() {
            assert(scan_consumed(marker, st, s) == 1);
            assert(s.take(1) =~= seq![s[0]]);
            assert(scan_fold(marker, st, s.take(1)) == scan_fold(marker, st2, s.take(1).skip(1)));
            assert(s.take(1).skip(1) =~= Seq::<u8>::empty());
            lemma_fold_absorb(marker, st2, tail);
            assert forall|p: int| 0 <= p < 1 implies (#[trigger] scan_fold(marker, st, s.take(p)))
                < marker.len() by {
                assert(s.take(0) =~= Seq::<u8>::empty());
            }
        } else {
            lemma_consumed_first(marker, st2, tail);
            let c = scan_consumed(marker, st, s);
            assert(c == 1 + scan_consumed(marker, st2, tail));
            assert(scan_found(marker, st, s) == scan_found(marker, st2, tail));
            if scan_found(marker, st, s) {
                let c2 = scan_consumed(marker, st2, tail);
                assert(s.take(c) =~= seq![s[0]] + tail.take(c2));
                assert((seq![s[0]] + tail.take(c2))[0] == s[0]);
                assert((seq![s[0]] + tail.take(c2)).skip(1) =~= tail.take(c2));
                assert(scan_fold(marker, st, s.take(c)) == scan_fold(marker, st2, tail.take(c2)));
                assert forall|p: int| 0 <= p < c implies (#[trigger] scan_fold(
                    marker,
                    st,
                    s.take(p),
                )) < marker.len() by {
                    if p == 0 {
                        assert(s.take(0) =~= Seq::<u8>::empty());
                    } else {
                        assert(s.take(p) =~= seq![s[0]] + tail.take(p - 1));
                        assert((seq![s[0]] + tail.take(p - 1))[0] == s[0]);
                        assert((seq![s[0]] + tail.take(p - 1)).skip(1) =~= tail.take(p - 1));
                        assert(scan_fold(marker, st, s.take(p)) == scan_fold(
                            marker,
                            st2,
                            tail.take(p - 1),
                        ));
                    }
                }
            }
        }
    }
}

/// Marker detection: a stream consisting of any output free of the marker,
/// followed by the marker itself, is scanned to exactly its end — no
/// earlier false match, nothing left unconsumed, the marker found.  The
/// consumed bytes are then the output followed by the marker, whatever
/// chunking the reads imposed (`lemma_chunk_boundary`).  The marker's
/// first byte must not recur inside it; a marker without that property
/// can be mis-detected by this scanner, which restarts instead of
/// re-scanning overlaps.
pub proof fn lemma_marker_detection(marker: Seq<u8>, o: Seq<u8>)
    requires
        marker.len() > 0,
        head_unique(marker),
        !occurs(o, marker),
    ensures
        scan_found(marker, 0, o + marker),
        scan_consumed(marker, 0, o + marker) == o.len() + marker.len(),
{
    let s = o + marker;
    let total = o.len() + marker.len();
    lemma_no_completion(marker, o, o.len() as int);
    assert(o.take(o.len() as int) =~= o);
    assert(scan_fold(marker, 0, o) < marker.len());
    lemma_marker_run(marker, o, marker.len() as int);
    assert(marker.take(marker.len() as int) =~= marker);
    assert(scan_found(marker, 0, s));
    // No prefix of the stream completes the scan before its very end.
    assert forall|p: int| 0 <= p < total implies (#[trigger] scan_fold(marker, 0, s.take(p)))
        < marker.len() by {
        if p <= o.len() {
            assert(s.take(p) =~= o.take(p));
        } else {
            let j = p - o.len();
            assert(s.take(p) =~= o + marker.take(j));
            lemma_marker_run(marker, o, j);
        }
    }
    lemma_consumed_first(marker, 0, s);
    let c = scan_consumed(marker, 0, s);
    if c < total {
        assert(scan_fold(marker, 0, s.take(c)) < marker.len());
        assert(false);
    }
}

/// A scan consumes at least one byte per step and stops no later than the
/// end of the input.
pub proof fn lemma_consumed_bounds(marker: Seq<u8>, st: nat, s: Seq<u8>)
    ensures
        0 <= scan_consumed(marker, st, s) <= s.len(),
    decreases s.len(),
{
    if s.len() > 0 {
        let st2 = scan_step(marker, st, s[0]);
        if st2 != marker.len() {
            lemma_consumed_bounds(marker, st2, s.skip(1));
        }
    }
}

/// The incremental marker scanner.  It is fed one read's worth of bytes at
/// a time and remembers how much of the marker the stream has matched so
/// far, so a marker split across reads is still found.
pub struct Scanner {
    marker: Vec<u8>,
    matched: usize,
}

impl Scanner {
    /// The marker this scanner searches for.
    pub closed spec fn marker_view(&self) -> Seq<u8> {
        self.marker@
    }

    /// How many marker bytes the stream currently matches.
    pub closed spec fn matched_count(&self) -> nat {
        self.matched as nat
    }

    /// The marker is non-empty and the match counter never runs past it.
    pub open spec fn wf(&self) -> bool {
        0 < self.marker_view().len() && self.matched_count() <= self.marker_view().len()
    }

    /// The marker has been seen in full.
    pub open spec fn complete(&self) -> bool {
        self.matched_count() == self.marker_view().len()
    }

    pub fn new(marker: Vec<u8>) -> (s: Scanner)
        requires
            marker@.len() > 0,
        ensures
            s.wf(),
            s.marker_view() == marker@,
            s.matched_count() == 0,
    {
        Scanner { marker, matched: 0 }
    }

    pub fn is_complete(&self) -> (r: bool)
        ensures
            r == self.complete(),
    {
        self.matched == self.marker.len()
    }

    /// Forget any partial match, ready for the next request cycle.
    pub fn reset(&mut self)
        ensures
            final(self).marker_view() == old(self).marker_view(),
            final(self).matched_count() == 0,
            old(self).wf() ==> final(self).wf(),
    {
        self.matched = 0;
    }

    /// Scan one read's worth of bytes.  Every byte consumed is appended to
    /// `out` verbatim; consumption stops at the byte that completes the
    /// marker, or at the end of the chunk.  Returns how many bytes of the
    /// chunk were consumed.
    pub fn feed(&mut self, chunk: &[u8], out: &mut Vec<u8>) -> (consumed: usize)
        requires
            old(self).wf(),
            !old(self).complete(),
        ensures
            final(self).wf(),
            final(self).marker_view() == old(self).marker_view(),
            consumed <= chunk@.len(),
            consumed as int == scan_consumed(
                old(self).marker_view(),
                old(self).matched_count(),
                chunk@,
            ),
            final(self).matched_count() == scan_fold(
                old(self).marker_view(),
                old(self).matched_count(),
                chunk@.take(consumed as int),
            ),
            final(out)@ == old(out)@ + chunk@.take(consumed as int),
            final(self).complete() == scan_found(
                old(self).marker_view(),
                old(self).matched_count(),
                chunk@,
            ),
    {
        let ghost m = old(self).marker_view();
        let ghost st0 = old(self).matched_count();
        let ghost out0 = old(out)@;
        let mut i: usize = 0;
        proof {
            assert(chunk@.skip(0) =~= chunk@);
            assert(chunk@.take(0) =~= Seq::<u8>::empty());
            assert(out@ =~= out0 + chunk@.take(0));
        }
        while i < chunk.len()
            invariant
                m == old(self).marker_view(),
                st0 == old(self).matched_count(),
                out0 == old(out)@,
                self.marker@ == m,
                0 < m.len(),
                i <= chunk.len(),
                chunk@.len() == chunk.len(),
                self.matched < m.len(),
                self.matched as nat == scan_fold(m, st0, chunk@.take(i as int)),
                scan_consumed(m, st0, chunk@) == i + scan_consumed(
                    m,
                    self.matched as nat,
                    chunk@.skip(i as int),
                ),
                out@ == out0 + chunk@.take(i as int),
            decreases chunk.len() - i,
        {
            let ghost k = self.matched as nat;
            let b = chunk[i];
            proof {
                assert(chunk@.skip(i as int)[0] == chunk@[i as int]);
                assert(chunk@.skip(i as int).skip(1) =~= chunk@.skip(i + 1));
                assert(chunk@.take(i + 1) =~= chunk@.take(i as int).push(b));
                lemma_fold_snoc(m, st0, chunk@.take(i as int), b);
            }
            if b == self.marker[self.matched] {
                assert(self.matched < self.marker.len());
                self.matched = self.matched + 1;
            } else if b == self.marker[0] {
                self.matched = 1;
            } else {
                self.matched = 0;
            }
            out.push(b);
            i = i + 1;
            proof {
                assert(self.matched as nat == scan_step(m, k, b));
            }
            if self.matched == self.marker.len() {
                proof {
                    assert(self.marker@ == m);
                    assert(scan_consumed(m, k, chunk@.skip(i - 1)) == 1);
                    assert(chunk@ =~= chunk@.take(i as int) + chunk@.skip(i as int));
                    lemma_fold_app(m, st0, chunk@.take(i as int), chunk@.skip(i as int));
                    lemma_fold_absorb(m, m.len(), chunk@.skip(i as int));
                }
                return i;
            }
        }
        proof {
            assert(chunk@.take(i as int) =~= chunk@);
            assert(chunk@.skip(i as int) =~= Seq::<u8>::empty());
        }
        i
    }
}

} // verus!
