//! The session bridge: per-backend prompt markers, request shaping,
//! output extraction and response assembly.
//!
//! A session writes one newline-terminated request to the child
//! interpreter, scans the child's output stream until the backend's prompt
//! marker appears, strips the marker (and, for the script engine, the
//! echoed request) from the scanned bytes, and appends whatever the error
//! stream produced meanwhile.  Everything here is pure: the caller owns
//! the pipes and hands in the bytes that were read.

use crate::scanner::{
    head_unique, occurs, occurs_at, scan_consumed, scan_found, lemma_chunk_boundary,
    lemma_consumed_bounds, lemma_consumed_first, lemma_fold_absorb, lemma_fold_app, scan_fold,
    Scanner,
};
use crate::text::{chars_of, string_of_chars};
use vstd::prelude::*;
use vstd::utf8::{decode_utf8, valid_utf8};

verus! {

/// The interpreter backends a session can drive.  Each one differs only in
/// its prompt marker and in how requests and responses are massaged.
#[derive(Clone, Copy, PartialEq, Eq, Debug, Structural)]
pub enum Backend {
    Ghci,
    Smlnj,
    Racket,
    Gjs,
}

/// What can go wrong between writing a request and assembling a response.
#[derive(Clone, Copy, PartialEq, Eq, Debug, Structural)]
pub enum BridgeError {
    /// The child could not be launched at all.
    SpawnFailure,
    /// The child's input pipe was closed when a request was written.
    WriteFailure,
    /// The child's output stream closed before the prompt marker appeared.
    UnexpectedEof,
    /// The child produced bytes that are not valid UTF-8.
    EncodingError,
}

/// The prompt marker each backend terminates its output with.
pub open spec fn spec_marker(backend: Backend) -> Seq<u8> {
    match backend {
        Backend::Ghci => seq![80u8, 114u8, 101u8, 108u8, 117u8, 100u8, 101u8, 62u8, 32u8],
        Backend::Smlnj => seq![10u8, 45u8],
        Backend::Racket => seq![62u8, 32u8],
        Backend::Gjs => seq![103u8, 106u8, 115u8, 62u8, 32u8],
    }
}

/// Every marker is non-empty and free of the self-overlap the scanner
/// cannot handle: its first byte occurs nowhere else in it.
pub proof fn lemma_marker_wf(backend: Backend)
    ensures
        spec_marker(backend).len() > 0,
        head_unique(spec_marker(backend)),
{
}

/// The marker bytes for a backend: `"Prelude> "` for the Haskell REPL,
/// `"\n-"` for the ML REPL, `"> "` for the Scheme REPL, `"gjs> "` for the
/// JavaScript engine.
pub fn marker_of(backend: &Backend) -> (m: Vec<u8>)
    ensures
        m@ == spec_marker(*backend),
        m@.len() > 0,
        head_unique(m@),
{
    proof {
        lemma_marker_wf(*backend);
    }
    let mut m: Vec<u8> = Vec::new();
    match backend {
        Backend::Ghci => {
            m.push(80u8);
            m.push(114u8);
            m.push(101u8);
            m.push(108u8);
            m.push(117u8);
            m.push(100u8);
            m.push(101u8);
            m.push(62u8);
            m.push(32u8);
        },
        Backend::Smlnj => {
            m.push(10u8);
            m.push(45u8);
        },
        Backend::Racket => {
            m.push(62u8);
            m.push(32u8);
        },
        Backend::Gjs => {
            m.push(103u8);
            m.push(106u8);
            m.push(115u8);
            m.push(62u8);
            m.push(32u8);
        },
    }
    proof {
        assert(m@ =~= spec_marker(*backend));
    }
    m
}

/// What a backend is sent right after its startup banner, before the
/// first request.  The Haskell REPL gets its prompt pinned to the marker,
/// so that loading a module does not change it; each command is answered
/// by a fresh prompt, which the session reads off before going ready.
pub open spec fn spec_startup(backend: Backend) -> Seq<Seq<char>> {
    match backend {
        Backend::Ghci => seq![":set prompt \"Prelude> \"\n"@],
        _ => Seq::empty(),
    }
}

/// The startup commands for a backend (see `spec_startup`).
pub fn startup_commands(backend: &Backend) -> (r: Vec<String>)
    ensures
        r.deep_view() == spec_startup(*backend),
{
    let mut r: Vec<String> = Vec::new();
    match backend {
        Backend::Ghci => {
            r.push(":set prompt \"Prelude> \"\n".to_owned());
            proof {
                assert(r.deep_view() =~= spec_startup(*backend));
            }
        },
        _ => {
            proof {
                assert(r.deep_view() =~= spec_startup(*backend));
            }
        },
    }
    r
}

/// How a request line is shaped before it is written to the child.  The
/// ML backend evaluates statements, so a terminating `;` is inserted
/// before the trailing newline when the user did not supply one; the
/// other backends take the line byte for byte.
pub open spec fn spec_massage(backend: Backend, req: Seq<char>) -> Seq<char> {
    if backend == Backend::Smlnj && req.len() >= 1 && req.last() == '\n' && !(req.len() >= 2
        && req[req.len() - 2] == ';') {
        req.drop_last().push(';').push('\n')
    } else {
        req
    }
}

/// Shape a request line for its backend (see `spec_massage`).
pub fn massage_request(backend: &Backend, req: &str) -> (r: String)
    ensures
        r@ == spec_massage(*backend, req@),
{
    match backend {
        Backend::Smlnj => {
            let mut v = chars_of(req);
            if v.len() >= 1 && v[v.len() - 1] == '\n' && !(v.len() >= 2 && v[v.len() - 2] == ';') {
                v.pop();
                v.push(';');
                v.push('\n');
                string_of_chars(&v)
            } else {
                req.to_owned()
            }
        },
        _ => req.to_owned(),
    }
}

/// `p` is the position of the last occurrence of `needle` in `hay`.
pub open spec fn is_last_occurrence(hay: Seq<u8>, needle: Seq<u8>, p: int) -> bool {
    occurs_at(hay, needle, p) && forall|q: int| q > p ==> !occurs_at(hay, needle, q)
}

/// The position of the last occurrence of `needle` in `hay` (meaningful
/// only when one occurs).
pub open spec fn last_occurrence(hay: Seq<u8>, needle: Seq<u8>) -> int {
    choose|p: int| is_last_occurrence(hay, needle, p)
}

/// No two positions are both the last occurrence.
pub proof fn lemma_last_occurrence_unique(hay: Seq<u8>, needle: Seq<u8>, p1: int, p2: int)
    requires
        is_last_occurrence(hay, needle, p1),
        is_last_occurrence(hay, needle, p2),
    ensures
        p1 == p2,
{
}

/// Whether `needle` occurs in `hay` starting at `p`.
fn window_eq(hay: &Vec<u8>, needle: &Vec<u8>, p: usize) -> (r: bool)
    requires
        p + needle@.len() <= hay@.len(),
    ensures
        r == occurs_at(hay@, needle@, p as int),
{
    let mut i: usize = 0;
    while i < needle.len()
        invariant
            i <= needle@.len(),
            p + needle@.len() <= hay@.len(),
            forall|j: int| 0 <= j < i ==> hay@[p + j] == needle@[j],
        decreases needle@.len() - i,
    {
        let hlen = hay.len();
        assert(p + i < hlen);
        if hay[p + i] != needle[i] {
            proof {
                assert(hay@.subrange(p as int, p + needle@.len())[i as int] == hay@[p + i]);
            }
            return false;
        }
        i = i + 1;
    }
    proof {
        assert(hay@.subrange(p as int, p + needle@.len()) =~= needle@);
    }
    true
}

/// The position of the last occurrence of `needle` in `hay`, or `None`
/// when it does not occur at all.
pub fn rfind(hay: &Vec<u8>, needle: &Vec<u8>) -> (r: Option<usize>)
    requires
        needle@.len() > 0,
    ensures
        r is Some <==> occurs(hay@, needle@),
        r is Some ==> is_last_occurrence(hay@, needle@, r.unwrap() as int) && r.unwrap() as int
            == last_occurrence(hay@, needle@),
{
    if needle.len() > hay.len() {
        proof {
            assert forall|q: int| !occurs_at(hay@, needle@, q) by {}
        }
        return None;
    }
    let mut p: usize = hay.len() - needle.len();
    loop
        invariant
            needle@.len() > 0,
            needle@.len() <= hay@.len(),
            p <= hay@.len() - needle@.len(),
            forall|q: int| q > p ==> !occurs_at(hay@, needle@, q),
        decreases p + 1,
    {
        if window_eq(hay, needle, p) {
            proof {
                assert(is_last_occurrence(hay@, needle@, p as int));
                let pc = last_occurrence(hay@, needle@);
                assert(is_last_occurrence(hay@, needle@, pc));
                lemma_last_occurrence_unique(hay@, needle@, p as int, pc);
            }
            return Some(p);
        }
        if p == 0 {
            proof {
                assert forall|q: int| !occurs_at(hay@, needle@, q) by {}
            }
            return None;
        }
        p = p - 1;
    }
}

/// The output text hiding in the scanned bytes.  The Haskell backend can
/// echo a stray prompt fragment before the real output, so its output is
/// everything before the *last* occurrence of the marker; the other
/// backends simply lose the marker from the end.  `None` when the bytes
/// do not hold the marker where it is expected.
pub open spec fn spec_extract(backend: Backend, raw: Seq<u8>) -> Option<Seq<u8>> {
    let m = spec_marker(backend);
    if backend == Backend::Ghci {
        if occurs(raw, m) {
            Some(raw.take(last_occurrence(raw, m)))
        } else {
            None
        }
    } else {
        if raw.len() >= m.len() {
            Some(raw.take(raw.len() - m.len()))
        } else {
            None
        }
    }
}

/// Strip the backend's prompt marker from scanned output bytes (see
/// `spec_extract`).
pub fn extract_output(backend: &Backend, raw: &Vec<u8>) -> (r: Option<Vec<u8>>)
    ensures
        r is Some <==> spec_extract(*backend, raw@) is Some,
        r is Some ==> r.unwrap()@ == spec_extract(*backend, raw@).unwrap(),
{
    let m = marker_of(backend);
    match backend {
        Backend::Ghci => {
            match rfind(raw, &m) {
                Some(p) => {
                    let mut out: Vec<u8> = Vec::new();
                    let mut i: usize = 0;
                    proof {
                        assert(raw@.take(0) =~= Seq::<u8>::empty());
                    }
                    while i < p
                        invariant
                            i <= p,
                            p <= raw@.len(),
                            out@ == raw@.take(i as int),
                        decreases p - i,
                    {
                        out.push(raw[i]);
                        i = i + 1;
                        proof {
                            assert(raw@.take(i as int) =~= raw@.take(i - 1).push(raw@[i - 1]));
                        }
                    }
                    Some(out)
                },
                None => None,
            }
        },
        _ => {
            if raw.len() >= m.len() {
                let keep = raw.len() - m.len();
                let mut out: Vec<u8> = Vec::new();
                let mut i: usize = 0;
                proof {
                    assert(raw@.take(0) =~= Seq::<u8>::empty());
                }
                while i < keep
                    invariant
                        i <= keep,
                        keep <= raw@.len(),
                        out@ == raw@.take(i as int),
                    decreases keep - i,
                {
                    out.push(raw[i]);
                    i = i + 1;
                    proof {
                        assert(raw@.take(i as int) =~= raw@.take(i - 1).push(raw@[i - 1]));
                    }
                }
                Some(out)
            } else {
                None
            }
        },
    }
}

/// Concatenation of the scanned output text with the drained error-stream
/// text.  When the child wrote nothing visible to its output stream, the
/// response is exactly the error text.
pub fn assemble_response(output: &str, err: &str) -> (r: String)
    ensures
        r@ == output@ + err@,
        output@.len() == 0 ==> r@ == err@,
{
    let mut r = output.to_owned();
    r.append(err);
    proof {
        if output@.len() == 0 {
            assert(output@ + err@ =~= err@);
        }
    }
    r
}

/// Relies on String::from_utf8: it succeeds exactly on valid UTF-8 and
/// yields the decoded characters.
#[verifier::external_body]
fn utf8_string(b: Vec<u8>) -> (r: Option<String>)
    ensures
        r is Some <==> valid_utf8(b@),
        r is Some ==> r.unwrap()@ == decode_utf8(b@),
{
    String::from_utf8(b).ok()
}

/// `out` with `req` removed from its head when `req` is a prefix of it;
/// `out` unchanged otherwise.
pub open spec fn spec_strip_prefix(out: Seq<char>, req: Seq<char>) -> Seq<char> {
    if out.len() >= req.len() && out.take(req.len() as int) == req {
        out.skip(req.len() as int)
    } else {
        out
    }
}

/// Remove an echoed request from the head of decoded output (see
/// `spec_strip_prefix`).  The script-engine backend echoes each request
/// before its answer; the echo contributes nothing and is dropped.
pub fn strip_prefix_echo(out: &str, req: &str) -> (r: String)
    ensures
        r@ == spec_strip_prefix(out@, req@),
{
    let oc = chars_of(out);
    let rc = chars_of(req);
    if oc.len() < rc.len() {
        return out.to_owned();
    }
    let mut i: usize = 0;
    while i < rc.len()
        invariant
            i <= rc@.len(),
            rc@.len() <= oc@.len(),
            oc@ == out@,
            rc@ == req@,
            forall|j: int| 0 <= j < i ==> oc@[j] == rc@[j],
        decreases rc@.len() - i,
    {
        if oc[i] != rc[i] {
            proof {
                assert(out@.take(req@.len() as int)[i as int] == out@[i as int]);
            }
            return out.to_owned();
        }
        i = i + 1;
    }
    proof {
        assert(out@.take(req@.len() as int) =~= req@);
    }
    let mut v: Vec<char> = Vec::new();
    let mut k: usize = rc.len();
    proof {
        assert(v@ =~= out@.subrange(req@.len() as int, k as int));
    }
    while k < oc.len()
        invariant
            req@.len() <= k <= oc@.len(),
            oc@ == out@,
            rc@ == req@,
            v@ == out@.subrange(req@.len() as int, k as int),
        decreases oc@.len() - k,
    {
        v.push(oc[k]);
        k = k + 1;
        proof {
            assert(out@.subrange(req@.len() as int, k as int) =~= out@.subrange(
                req@.len() as int,
                k - 1,
            ).push(out@[k - 1]));
        }
    }
    proof {
        assert(out@.subrange(req@.len() as int, out@.len() as int) =~= out@.skip(
            req@.len() as int,
        ));
    }
    string_of_chars(&v)
}

/// The response assembled from scanned output bytes and error text: the
/// marker is stripped, the bytes decoded, the echo removed for the script
/// engine, and the error text appended.  Errs when the marker is missing
/// from the bytes or they are not UTF-8.
pub open spec fn spec_finish(
    backend: Backend,
    req: Seq<char>,
    raw: Seq<u8>,
    err: Seq<char>,
) -> Result<Seq<char>, BridgeError> {
    match spec_extract(backend, raw) {
        Option::None => Result::Err(BridgeError::UnexpectedEof),
        Option::Some(ext) => if !valid_utf8(ext) {
            Result::Err(BridgeError::EncodingError)
        } else {
            let out = if backend == Backend::Gjs {
                spec_strip_prefix(decode_utf8(ext), req)
            } else {
                decode_utf8(ext)
            };
            Result::Ok(out + err)
        },
    }
}

/// An executable `Result` agrees with a specification-level one.
pub open spec fn res_matches(
    r: Result<String, BridgeError>,
    s: Result<Seq<char>, BridgeError>,
) -> bool {
    match r {
        Result::Ok(v) => match s {
            Result::Ok(sv) => v@ == sv,
            Result::Err(_) => false,
        },
        Result::Err(e) => match s {
            Result::Ok(_) => false,
            Result::Err(se) => e == se,
        },
    }
}

/// Turn one cycle's scanned bytes and error text into the response (see
/// `spec_finish`).  When the output component is empty the response is
/// exactly the error text.
pub fn finish_response(backend: &Backend, req: &str, raw: &Vec<u8>, err: &str) -> (r: Result<
    String,
    BridgeError,
>)
    ensures
        res_matches(r, spec_finish(*backend, req@, raw@, err@)),
        spec_extract(*backend, raw@) == Option::Some(Seq::<u8>::empty()) ==> r is Ok
            && r.unwrap()@ == err@,
{
    proof {
        if spec_extract(*backend, raw@) == Option::Some(Seq::<u8>::empty()) {
            assert(valid_utf8(Seq::<u8>::empty()));
            assert(decode_utf8(Seq::<u8>::empty()) =~= Seq::<char>::empty());
            assert(spec_strip_prefix(Seq::<char>::empty(), req@) =~= Seq::<char>::empty());
            assert(Seq::<char>::empty() + err@ =~= err@);
        }
    }
    match extract_output(backend, raw) {
        Option::None => Result::Err(BridgeError::UnexpectedEof),
        Option::Some(ext) => {
            match utf8_string(ext) {
                Option::None => Result::Err(BridgeError::EncodingError),
                Option::Some(s) => {
                    let out = if *backend == Backend::Gjs {
                        strip_prefix_echo(s.as_str(), req)
                    } else {
                        s
                    };
                    Result::Ok(assemble_response(out.as_str(), err))
                },
            }
        },
    }
}

/// The full response for one request cycle, over the chunks the child's
/// output stream delivered: scan until the marker, then strip, decode and
/// merge.  `Err(UnexpectedEof)` exactly when the marker never appears in
/// the concatenation of the chunks.
pub open spec fn spec_response(
    backend: Backend,
    req: Seq<char>,
    chunks: Seq<Seq<u8>>,
    err: Seq<char>,
) -> Result<Seq<char>, BridgeError> {
    let stream = chunks.flatten();
    let m = spec_marker(backend);
    if !scan_found(m, 0, stream) {
        Result::Err(BridgeError::UnexpectedEof)
    } else {
        spec_finish(backend, req, stream.take(scan_consumed(m, 0, stream)), err)
    }
}

/// The response does not depend on how the child's output stream was cut
/// into reads: two chunkings of the same byte stream give the same
/// response.
pub proof fn lemma_response_chunking_independent(
    backend: Backend,
    req: Seq<char>,
    chunks1: Seq<Seq<u8>>,
    chunks2: Seq<Seq<u8>>,
    err: Seq<char>,
)
    requires
        chunks1.flatten() == chunks2.flatten(),
    ensures
        spec_response(backend, req, chunks1, err) == spec_response(backend, req, chunks2, err),
{
}

/// Compute the response to one request from the output chunks and the
/// drained error text (see `spec_response`).  The scan result does not
/// depend on how the stream was cut into chunks: only their concatenation
/// enters the specification.
pub fn respond(backend: &Backend, req: &str, chunks: &Vec<Vec<u8>>, err: &str) -> (r: Result<
    String,
    BridgeError,
>)
    ensures
        res_matches(r, spec_response(*backend, req@, chunks.deep_view(), err@)),
{
    let ghost deep = chunks.deep_view();
    let ghost m = spec_marker(*backend);
    let mut sc = Scanner::new(marker_of(backend));
    let mut raw: Vec<u8> = Vec::new();
    let mut k: usize = 0;
    proof {
        assert(deep.take(0) =~= Seq::<Seq<u8>>::empty());
        assert(deep.take(0).flatten() =~= Seq::<u8>::empty());
        assert(deep.len() == chunks@.len());
    }
    while k < chunks.len()
        invariant
            deep == chunks.deep_view(),
            m == spec_marker(*backend),
            m.len() > 0,
            deep.len() == chunks@.len(),
            k <= chunks@.len(),
            sc.wf(),
            sc.marker_view() == m,
            !sc.complete() ==> raw@ == deep.take(k as int).flatten() && sc.matched_count()
                == scan_fold(m, 0, deep.take(k as int).flatten()) && !scan_found(
                m,
                0,
                deep.take(k as int).flatten(),
            ),
            sc.complete() ==> scan_found(m, 0, deep.take(k as int).flatten()) && raw@ == deep.take(
                k as int,
            ).flatten().take(scan_consumed(m, 0, deep.take(k as int).flatten())),
        decreases chunks@.len() - k,
    {
        let ghost fk = deep.take(k as int).flatten();
        let ghost b = deep[k as int];
        proof {
            assert(chunks@[k as int]@ == deep[k as int]);
            deep.take(k as int).lemma_flatten_push(b);
            assert(deep.take(k + 1) =~= deep.take(k as int).push(b));
            assert(deep.take(k + 1).flatten() == fk + b);
            lemma_chunk_boundary(m, 0, fk, b);
        }
        if !sc.is_complete() {
            let ghost st = sc.matched_count();
            let consumed = sc.feed(chunks[k].as_slice(), &mut raw);
            proof {
                if sc.complete() {
                    assert(scan_found(m, st, b));
                    assert(scan_fold(m, 0, fk + b) == scan_fold(m, st, b));
                    assert(scan_found(m, 0, fk + b));
                    assert(scan_consumed(m, 0, fk + b) == fk.len() + consumed);
                    lemma_consumed_first(m, st, b);
                    assert((fk + b).take(fk.len() + consumed) =~= fk + b.take(consumed as int));
                } else {
                    assert(!scan_found(m, st, b));
                    assert(scan_fold(m, 0, fk + b) == scan_fold(m, st, b));
                    assert(!scan_found(m, 0, fk + b));
                    lemma_consumed_first(m, st, b);
                    assert(consumed == b.len());
                    assert(b.take(b.len() as int) =~= b);
                    assert(sc.matched_count() == scan_fold(m, st, b));
                }
            }
        } else {
            proof {
                let c = scan_consumed(m, 0, fk);
                lemma_consumed_bounds(m, 0, fk);
                lemma_fold_app(m, 0, fk, b);
                lemma_fold_absorb(m, m.len(), b);
                assert(scan_found(m, 0, fk + b));
                assert(scan_consumed(m, 0, fk + b) == c);
                assert((fk + b).take(c) =~= fk.take(c));
            }
        }
        k = k + 1;
    }
    proof {
        assert(deep.take(chunks@.len() as int) =~= deep);
    }
    if sc.is_complete() {
        finish_response(backend, req, &raw, err)
    } else {
        Result::Err(BridgeError::UnexpectedEof)
    }
}

/// One request cycle's worth of child activity: the chunks the child's
/// output stream delivered before its prompt reappeared, and the error
/// text drained afterwards.
pub struct Exchange {
    pub chunks: Vec<Vec<u8>>,
    pub err: String,
}

/// Response pairing: a sequence of requests submitted one at a time
/// yields exactly one response per request, in submission order — the
/// i-th response is the response to the i-th request and to no other.
pub fn run_requests(backend: &Backend, requests: &Vec<String>, exchanges: &Vec<Exchange>) -> (rs:
    Vec<Result<String, BridgeError>>)
    requires
        requests@.len() == exchanges@.len(),
    ensures
        rs@.len() == requests@.len(),
        forall|i: int|
            0 <= i < rs@.len() ==> #[trigger] res_matches(
                rs@[i],
                spec_response(
                    *backend,
                    requests@[i]@,
                    exchanges@[i].chunks.deep_view(),
                    exchanges@[i].err@,
                ),
            ),
{
    let mut rs: Vec<Result<String, BridgeError>> = Vec::new();
    let mut i: usize = 0;
    while i < requests.len()
        invariant
            requests@.len() == exchanges@.len(),
            i <= requests@.len(),
            rs@.len() == i,
            forall|j: int|
                0 <= j < i ==> #[trigger] res_matches(
                    rs@[j],
                    spec_response(
                        *backend,
                        requests@[j]@,
                        exchanges@[j].chunks.deep_view(),
                        exchanges@[j].err@,
                    ),
                ),
        decreases requests@.len() - i,
    {
        let r = respond(backend, requests[i].as_str(), &exchanges[i].chunks, exchanges[i].err.as_str());
        rs.push(r);
        i = i + 1;
    }
    rs
}

} // verus!
