use ihsk::scanner::Scanner;

fn scan_all(marker: &[u8], chunks: &[&[u8]]) -> (Vec<u8>, Vec<usize>, bool) {
    let mut sc = Scanner::new(marker.to_vec());
    let mut out: Vec<u8> = Vec::new();
    let mut consumed = Vec::new();
    for chunk in chunks {
        if sc.is_complete() {
            break;
        }
        consumed.push(sc.feed(chunk, &mut out));
    }
    let done = sc.is_complete();
    (out, consumed, done)
}

#[test]
fn marker_split_across_three_reads() {
    // The marker arrives cut across the second and third read; the scan
    // completes only at the third, with the whole stream captured.
    let (out, consumed, done) = scan_all(b"Prelude> ", &[b"42\n", b"Prel", b"ude> "]);
    assert!(done);
    assert_eq!(out, b"42\nPrelude> ".to_vec());
    assert_eq!(consumed, vec![3, 4, 5]);
}

#[test]
fn no_false_match_before_marker() {
    // A lone "Prel" inside the output must not complete the scan.
    let (out, _, done) = scan_all(b"Prelude> ", &[b"Prel x\n", b"Prelude> "]);
    assert!(done);
    assert_eq!(out, b"Prel x\nPrelude> ".to_vec());
}

#[test]
fn output_then_marker_consumes_exactly() {
    // Output free of the marker followed by the marker: everything is
    // consumed, nothing more.
    let o = b"hello world\n";
    let m = b"gjs> ";
    let stream: Vec<u8> = o.iter().chain(m.iter()).copied().collect();
    for cut in 0..=stream.len() {
        let (a, b) = stream.split_at(cut);
        let (out, consumed, done) = scan_all(m, &[a, b]);
        assert!(done, "cut at {cut}");
        assert_eq!(out, stream, "cut at {cut}");
        let total: usize = consumed.iter().sum();
        assert_eq!(total, o.len() + m.len(), "cut at {cut}");
    }
}

#[test]
fn chunk_boundary_independence() {
    // Scanning the same bytes split at every possible offset over two
    // reads gives the same capture and the same completion point as one
    // unchunked read.
    let stream = b"a> b\n> rest";
    let marker = b"\n> ";
    let (whole_out, whole_consumed, whole_done) = scan_all(marker, &[stream]);
    let whole_total: usize = whole_consumed.iter().sum();
    for cut in 0..=stream.len() {
        let (a, b) = stream.split_at(cut);
        let (out, consumed, done) = scan_all(marker, &[a, b]);
        assert_eq!(done, whole_done, "cut at {cut}");
        assert_eq!(out, whole_out, "cut at {cut}");
        let total: usize = consumed.iter().sum();
        assert_eq!(total, whole_total, "cut at {cut}");
    }
}

#[test]
fn eof_without_marker() {
    let (out, _, done) = scan_all(b"> ", &[b"no prompt here"]);
    assert!(!done);
    assert_eq!(out, b"no prompt here".to_vec());
}

#[test]
fn consumption_stops_at_marker_end() {
    // Bytes after the marker inside one chunk stay unconsumed.
    let mut sc = Scanner::new(b"> ".to_vec());
    let mut out: Vec<u8> = Vec::new();
    let n = sc.feed(b"x> tail", &mut out);
    assert!(sc.is_complete());
    assert_eq!(n, 3);
    assert_eq!(out, b"x> ".to_vec());
}

#[test]
fn reset_forgets_partial_match() {
    let mut sc = Scanner::new(b"> ".to_vec());
    let mut out: Vec<u8> = Vec::new();
    sc.feed(b"a>", &mut out);
    assert!(!sc.is_complete());
    sc.reset();
    out.clear();
    let n = sc.feed(b" ", &mut out);
    // After the reset the pending ">" is forgotten, so a lone space does
    // not complete the marker.
    assert!(!sc.is_complete());
    assert_eq!(n, 1);
}
