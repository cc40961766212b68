use ihsk::bridge::{
    assemble_response, extract_output, finish_response, marker_of, massage_request, respond,
    rfind, run_requests, startup_commands, strip_prefix_echo, Backend, BridgeError, Exchange,
};

#[test]
fn ghci_startup_pins_the_prompt() {
    assert_eq!(
        startup_commands(&Backend::Ghci),
        vec![":set prompt \"Prelude> \"\n".to_string()]
    );
    assert!(startup_commands(&Backend::Racket).is_empty());
    assert!(startup_commands(&Backend::Smlnj).is_empty());
    assert!(startup_commands(&Backend::Gjs).is_empty());
}

#[test]
fn markers_per_backend() {
    assert_eq!(marker_of(&Backend::Ghci), b"Prelude> ".to_vec());
    assert_eq!(marker_of(&Backend::Smlnj), b"\n-".to_vec());
    assert_eq!(marker_of(&Backend::Racket), b"> ".to_vec());
    assert_eq!(marker_of(&Backend::Gjs), b"gjs> ".to_vec());
}

#[test]
fn smlnj_request_gets_terminator() {
    assert_eq!(massage_request(&Backend::Smlnj, "1+2\n"), "1+2;\n");
}

#[test]
fn smlnj_request_with_terminator_unchanged() {
    assert_eq!(massage_request(&Backend::Smlnj, "1+2;\n"), "1+2;\n");
}

#[test]
fn other_requests_pass_byte_for_byte() {
    assert_eq!(massage_request(&Backend::Ghci, "main\n"), "main\n");
    assert_eq!(massage_request(&Backend::Racket, "(car x)\n"), "(car x)\n");
    assert_eq!(massage_request(&Backend::Gjs, "1+1\n"), "1+1\n");
}

#[test]
fn assemble_concatenates() {
    assert_eq!(assemble_response("out", "err"), "outerr");
}

#[test]
fn assemble_empty_output_is_error_text() {
    assert_eq!(assemble_response("", "boom"), "boom");
}

#[test]
fn rfind_reports_last_occurrence() {
    assert_eq!(rfind(&b"ab> cd> ".to_vec(), &b"> ".to_vec()), Some(6));
    assert_eq!(rfind(&b"abcd".to_vec(), &b"> ".to_vec()), None);
}

#[test]
fn ghci_extract_cuts_at_last_marker() {
    // The Haskell REPL can echo a stray prompt before the real output:
    // only the last occurrence ends the response.
    let raw = b"Prelude> 42\nPrelude> ".to_vec();
    assert_eq!(extract_output(&Backend::Ghci, &raw), Some(b"Prelude> 42\n".to_vec()));
}

#[test]
fn racket_extract_drops_marker() {
    let raw = b"3\n> ".to_vec();
    assert_eq!(extract_output(&Backend::Racket, &raw), Some(b"3\n".to_vec()));
}

#[test]
fn gjs_extract_drops_marker() {
    let raw = b"1+1\n2\ngjs> ".to_vec();
    assert_eq!(extract_output(&Backend::Gjs, &raw), Some(b"1+1\n2\n".to_vec()));
}

#[test]
fn extract_without_marker_fails() {
    assert_eq!(extract_output(&Backend::Ghci, &b"no prompt".to_vec()), None);
    assert_eq!(extract_output(&Backend::Racket, &b">".to_vec()), None);
}

#[test]
fn echo_stripped_when_present() {
    assert_eq!(strip_prefix_echo("1+1\n2\n", "1+1\n"), "2\n");
}

#[test]
fn echo_left_alone_when_absent() {
    assert_eq!(strip_prefix_echo("2\n", "1+1\n"), "2\n");
}

#[test]
fn ghci_cycle_produces_output() {
    let chunks = vec![b"42\n".to_vec(), b"Prel".to_vec(), b"ude> ".to_vec()];
    let r = respond(&Backend::Ghci, "6*7\n", &chunks, "");
    assert_eq!(r, Ok("42\n".to_string()));
}

#[test]
fn error_text_appended_after_output() {
    let chunks = vec![b"42\nPrelude> ".to_vec()];
    let r = respond(&Backend::Ghci, "6*7\n", &chunks, "warning\n");
    assert_eq!(r, Ok("42\nwarning\n".to_string()));
}

#[test]
fn empty_output_falls_back_to_error_text() {
    // The child answered only on its error stream: the response is
    // exactly the error text.
    let chunks = vec![b"> ".to_vec()];
    let r = respond(&Backend::Racket, "(bad\n", &chunks, "read error\n");
    assert_eq!(r, Ok("read error\n".to_string()));
}

#[test]
fn gjs_cycle_strips_echo() {
    let chunks = vec![b"1+1\n2\ngjs> ".to_vec()];
    let r = respond(&Backend::Gjs, "1+1\n", &chunks, "");
    assert_eq!(r, Ok("2\n".to_string()));
}

#[test]
fn stream_closing_early_is_eof() {
    let chunks = vec![b"partial".to_vec()];
    let r = respond(&Backend::Ghci, "x\n", &chunks, "");
    assert_eq!(r, Err(BridgeError::UnexpectedEof));
}

#[test]
fn bad_bytes_are_an_encoding_error() {
    let chunks = vec![vec![0xff, b'>', b' ']];
    let r = respond(&Backend::Racket, "x\n", &chunks, "");
    assert_eq!(r, Err(BridgeError::EncodingError));
}

#[test]
fn finish_response_matches_respond() {
    let raw = b"3\n> ".to_vec();
    let r = finish_response(&Backend::Racket, "(+ 1 2)\n", &raw, "");
    assert_eq!(r, Ok("3\n".to_string()));
}

#[test]
fn one_response_per_request_in_order() {
    // Three requests, three exchanges: exactly three responses, each
    // answering its own request.
    let requests = vec!["a\n".to_string(), "b\n".to_string(), "c\n".to_string()];
    let exchanges = vec![
        Exchange { chunks: vec![b"1\n> ".to_vec()], err: String::new() },
        Exchange { chunks: vec![b"2\n> ".to_vec()], err: String::new() },
        Exchange { chunks: vec![b"> ".to_vec()], err: "oops\n".to_string() },
    ];
    let rs = run_requests(&Backend::Racket, &requests, &exchanges);
    assert_eq!(rs.len(), 3);
    assert_eq!(rs[0], Ok("1\n".to_string()));
    assert_eq!(rs[1], Ok("2\n".to_string()));
    assert_eq!(rs[2], Ok("oops\n".to_string()));
}
