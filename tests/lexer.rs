use fibermark::NewLineType::{UnixStyle, WindowsStyle};
use fibermark::TokenContent::{Breaks, CodeFence, Heading, NewLine, Text};
use fibermark::{tokenize, Lexer, NewLineType, Token, TokenContent};

fn tok(content: TokenContent, start: usize, end: usize) -> Token {
    Token { content, range: start..end }
}

fn spell(input: &str, tokens: &[Token]) -> String {
    let chars: Vec<char> = input.chars().collect();
    let mut out = String::new();
    for t in tokens {
        for c in &chars[t.range.start..t.range.end] {
            out.push(*c);
        }
    }
    out
}

#[test]
fn heading_then_text() {
    assert_eq!(tokenize("### abc"), vec![tok(Heading(3), 0, 3), tok(Text, 3, 7)]);
}

#[test]
fn two_dashes_are_text() {
    assert_eq!(tokenize("--"), vec![tok(Text, 0, 2)]);
}

#[test]
fn three_dashes_are_a_break() {
    assert_eq!(tokenize("---"), vec![tok(Breaks, 0, 3)]);
}

#[test]
fn two_backticks_are_text() {
    assert_eq!(tokenize("``"), vec![tok(Text, 0, 2)]);
}

#[test]
fn three_backticks_are_a_code_fence() {
    assert_eq!(tokenize("```"), vec![tok(CodeFence(3), 0, 3)]);
}

#[test]
fn windows_newline() {
    assert_eq!(
        tokenize("a\r\nb"),
        vec![tok(Text, 0, 1), tok(NewLine(WindowsStyle), 1, 3), tok(Text, 3, 4)]
    );
}

#[test]
fn unix_newline() {
    assert_eq!(
        tokenize("a\nb"),
        vec![tok(Text, 0, 1), tok(NewLine(UnixStyle), 1, 2), tok(Text, 2, 3)]
    );
}

#[test]
fn plain_text_is_one_token() {
    let input = "Hello, plain world! 1 + 2 = 3";
    let n = input.chars().count();
    assert_eq!(tokenize(input), vec![tok(Text, 0, n)]);
}

#[test]
fn document_end_to_end() {
    let input = "# Title\n## Sub\n\n```\ncode\n```\n\n---\n\nHello";
    let expected = vec![
        tok(Heading(1), 0, 1),
        tok(Text, 1, 7),
        tok(NewLine(UnixStyle), 7, 8),
        tok(Heading(2), 8, 10),
        tok(Text, 10, 14),
        tok(NewLine(UnixStyle), 14, 15),
        tok(NewLine(UnixStyle), 15, 16),
        tok(CodeFence(3), 16, 19),
        tok(NewLine(UnixStyle), 19, 20),
        tok(Text, 20, 24),
        tok(NewLine(UnixStyle), 24, 25),
        tok(CodeFence(3), 25, 28),
        tok(NewLine(UnixStyle), 28, 29),
        tok(NewLine(UnixStyle), 29, 30),
        tok(Breaks, 30, 33),
        tok(NewLine(UnixStyle), 33, 34),
        tok(NewLine(UnixStyle), 34, 35),
        tok(Text, 35, 40),
    ];
    assert_eq!(tokenize(input), expected);
}

#[test]
fn lexing_twice_gives_the_same_tokens() {
    let input = "## a -- b\r\n```x``\n----";
    assert_eq!(tokenize(input), tokenize(input));
}

#[test]
fn tokens_spell_the_input() {
    let inputs = [
        "",
        "# Title\n## Sub\n\n```\ncode\n```\n\n---\n\nHello",
        "a--b``c\r\rd\r",
        "-\n``\r\n\n####`",
        "héllo — wörld",
    ];
    for input in inputs {
        assert_eq!(spell(input, &tokenize(input)), input);
    }
}

#[test]
fn empty_input_has_no_tokens() {
    assert_eq!(tokenize(""), Vec::<Token>::new());
    let mut lexer = Lexer::new("");
    assert_eq!(lexer.next_token(), None);
    assert_eq!(lexer.next_token(), None);
}

#[test]
fn short_marker_runs_join_the_text_around_them() {
    assert_eq!(tokenize("a--b"), vec![tok(Text, 0, 4)]);
    assert_eq!(tokenize("x``y-z"), vec![tok(Text, 0, 6)]);
    assert_eq!(tokenize("--\n"), vec![tok(Text, 0, 2), tok(NewLine(UnixStyle), 2, 3)]);
}

#[test]
fn lone_carriage_return_is_text() {
    assert_eq!(tokenize("\r"), vec![tok(Text, 0, 1)]);
    assert_eq!(tokenize("a\r"), vec![tok(Text, 0, 2)]);
    assert_eq!(
        tokenize("\r\r\n"),
        vec![tok(Text, 0, 1), tok(NewLine(WindowsStyle), 1, 3)]
    );
}

#[test]
fn windows_newline_does_not_swallow_next_newline() {
    assert_eq!(
        tokenize("\r\n\n"),
        vec![tok(NewLine(WindowsStyle), 0, 2), tok(NewLine(UnixStyle), 2, 3)]
    );
}

#[test]
fn long_runs_keep_their_length() {
    assert_eq!(tokenize("######"), vec![tok(Heading(6), 0, 6)]);
    assert_eq!(tokenize("-----"), vec![tok(Breaks, 0, 5)]);
    assert_eq!(tokenize("````x"), vec![tok(CodeFence(4), 0, 4), tok(Text, 4, 5)]);
}

#[test]
fn adjacent_marker_kinds_split() {
    assert_eq!(
        tokenize("#---```"),
        vec![tok(Heading(1), 0, 1), tok(Breaks, 1, 4), tok(CodeFence(3), 4, 7)]
    );
}

#[test]
fn offsets_count_characters() {
    assert_eq!(tokenize("é\n"), vec![tok(Text, 0, 1), tok(NewLine(UnixStyle), 1, 2)]);
}

#[test]
fn next_token_pulls_one_at_a_time() {
    let text = String::from("# a\n");
    let mut lexer = Lexer::from_string(&text);
    assert_eq!(lexer.next_token(), Some(tok(Heading(1), 0, 1)));
    assert_eq!(lexer.next_token(), Some(tok(Text, 1, 3)));
    assert_eq!(lexer.next_token(), Some(tok(NewLine(UnixStyle), 3, 4)));
    assert_eq!(lexer.next_token(), None);
}

#[test]
fn into_iter_yields_all_tokens() {
    let mut tokens = Lexer::new("x\n---").into_iter();
    assert_eq!(tokens.next(), Some(tok(Text, 0, 1)));
    assert_eq!(tokens.next(), Some(tok(NewLine(UnixStyle), 1, 2)));
    assert_eq!(tokens.next(), Some(tok(Breaks, 2, 5)));
    assert_eq!(tokens.next(), None);
}

#[test]
fn newline_widths() {
    assert_eq!(NewLineType::WindowsStyle.len(), 2);
    assert_eq!(NewLineType::UnixStyle.len(), 1);
}

#[test]
fn classifier_first_character() {
    assert_eq!(TokenContent::single_char_type(&'#'), Heading(1));
    assert_eq!(TokenContent::single_char_type(&'-'), Breaks);
    assert_eq!(TokenContent::single_char_type(&'`'), CodeFence(1));
    assert_eq!(TokenContent::single_char_type(&'\r'), NewLine(WindowsStyle));
    assert_eq!(TokenContent::single_char_type(&'\n'), NewLine(UnixStyle));
    assert_eq!(TokenContent::single_char_type(&'a'), Text);
    assert!(TokenContent::is_single_special_char(&'`'));
    assert!(!TokenContent::is_single_special_char(&' '));
}

#[test]
fn classifier_continuation() {
    assert_eq!(Heading(2).should_continue(&'#'), Some(Heading(3)));
    assert_eq!(Heading(2).should_continue(&'-'), None);
    assert_eq!(CodeFence(1).should_continue(&'`'), Some(CodeFence(2)));
    assert_eq!(Breaks.should_continue(&'-'), Some(Breaks));
    assert_eq!(Breaks.should_continue(&'#'), None);
    assert_eq!(Text.should_continue(&'z'), Some(Text));
    assert_eq!(Text.should_continue(&'\n'), None);
    assert_eq!(NewLine(WindowsStyle).should_continue(&'\n'), Some(NewLine(WindowsStyle)));
    assert_eq!(NewLine(UnixStyle).should_continue(&'\n'), None);
    assert_eq!(NewLine(WindowsStyle).should_continue(&'x'), None);
}
