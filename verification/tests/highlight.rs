use ihsk::racket::{random_palette, BracketColorGen};

#[test]
fn keywords_wrapped_in_their_colours() {
    assert_eq!(ihsk::editor::highlight_keywords("if"), "\x1b[1;33mif\x1b[0m");
    assert_eq!(
        ihsk::editor::highlight_keywords("let x = 1"),
        "\x1b[1;32mlet\x1b[0m x \x1b[1;33m=\x1b[0m 1"
    );
}

#[test]
fn plain_text_untouched() {
    assert_eq!(ihsk::editor::highlight_keywords("abc xyz"), "abc xyz");
}

#[test]
fn ghci_highlight_same_as_keywords() {
    assert_eq!(ihsk::ghci::highlight("where", 0), "\x1b[1;31mwhere\x1b[0m");
}

#[test]
fn smlnj_highlight_same_as_keywords() {
    assert_eq!(ihsk::smlnj::highlight("data"), "\x1b[1;34mdata\x1b[0m");
}

#[test]
fn gjs_highlight_keywords() {
    assert_eq!(ihsk::gjs::highlight("fun", 0), "\x1b[1;32mfun\x1b[0m");
    assert_eq!(ihsk::gjs::highlight("const", 0), "\x1b[38;2;194;14;234mconst\x1b[0m");
}

#[test]
fn highlight_is_deterministic() {
    // No state carries over between calls: the same line always comes
    // back the same.
    let line = "let x = car";
    assert_eq!(
        ihsk::editor::highlight_keywords(line),
        ihsk::editor::highlight_keywords(line)
    );
    assert_eq!(ihsk::gjs::highlight(line, 3), ihsk::gjs::highlight(line, 3));
    let palette = vec![(1u8, 2u8, 3u8), (4u8, 5u8, 6u8)];
    assert_eq!(
        ihsk::racket::highlight("(car (cdr x))", 0, &palette),
        ihsk::racket::highlight("(car (cdr x))", 0, &palette)
    );
}

#[test]
fn racket_brackets_take_palette_colours() {
    let palette = vec![(1u8, 2u8, 3u8), (4u8, 5u8, 6u8)];
    let r = ihsk::racket::highlight("(car x)", 0, &palette);
    assert_eq!(
        r,
        "\x1b[38;2;1;2;3m(\x1b[0m\x1b[1;94mcar\x1b[0m x\x1b[38;2;1;2;3m)\x1b[0m"
    );
}

#[test]
fn racket_nested_brackets_match_in_colour() {
    let palette = vec![(1u8, 2u8, 3u8), (4u8, 5u8, 6u8)];
    let r = ihsk::racket::highlight("([])", 0, &palette);
    assert_eq!(
        r,
        "\x1b[38;2;1;2;3m(\x1b[0m\x1b[38;2;4;5;6m[\x1b[0m\x1b[38;2;4;5;6m]\x1b[0m\x1b[38;2;1;2;3m)\x1b[0m"
    );
}

#[test]
fn racket_unmatched_close_stays_plain() {
    let palette = vec![(1u8, 2u8, 3u8)];
    assert_eq!(ihsk::racket::highlight(")", 0, &palette), ")");
}

#[test]
fn racket_exhausted_palette_leaves_brackets_plain() {
    let palette: Vec<(u8, u8, u8)> = Vec::new();
    assert_eq!(ihsk::racket::highlight("(x)", 0, &palette), "(x)");
}

#[test]
fn racket_keywords_and_booleans() {
    let palette = vec![(9u8, 9u8, 9u8)];
    assert_eq!(ihsk::racket::highlight("#t", 0, &palette), "\x1b[1;32m#t\x1b[0m");
    assert_eq!(
        ihsk::racket::highlight("set!", 0, &palette),
        "\x1b[1;31mset!\x1b[0m"
    );
    assert_eq!(
        ihsk::racket::highlight("else", 0, &palette),
        "\x1b[38;2;255;100;0melse\x1b[0m"
    );
    assert_eq!(ihsk::racket::highlight("+", 0, &palette), "\x1b[1;33m+\x1b[0m");
}

#[test]
fn bracket_color_gen_hands_out_and_takes_back() {
    let mut gen = BracketColorGen::new(vec![(10u8, 20u8, 30u8)]);
    let open = gen.next('(');
    assert_eq!(open, "\x1b[38;2;10;20;30m(\x1b[0m");
    let close = gen.rev(')');
    assert_eq!(close, "\x1b[38;2;10;20;30m)\x1b[0m");
    // The stack is empty now: a further close stays plain.
    assert_eq!(gen.rev(')'), ")");
}

#[test]
fn palette_has_a_hundred_colours() {
    assert_eq!(random_palette().len(), 100);
}
