//! End-to-end tests of the tokenizer.

use tokenizer::tokenize;
use tokenizer::tokenize_with_stack;
use tokenizer::Token;
use tokenizer::TokenKind;
use tokenizer::TokenizeError;

fn text_of(t: &Token) -> String {
    t.text.iter().collect()
}

fn line_of(t: &Token) -> String {
    t.line.iter().collect()
}

fn kinds_of(toks: &[Token]) -> Vec<TokenKind> {
    toks.iter().map(|t| t.kind).collect()
}

fn texts_of(toks: &[Token]) -> Vec<String> {
    toks.iter().map(text_of).collect()
}

fn count(toks: &[Token], k: TokenKind) -> usize {
    toks.iter().filter(|t| t.kind == k).count()
}

/// Walk the tokens in order and check that together with the skipped
/// insignificant characters they cover the input exactly.
fn check_reconstruction(input: &str) {
    let chars: Vec<char> = input.chars().collect();
    let toks = tokenize(input).unwrap();
    let mut line_starts: Vec<usize> = vec![0];
    for (i, c) in chars.iter().enumerate() {
        if *c == '\n' {
            line_starts.push(i + 1);
        }
    }
    let insignificant =
        |c: char| c == ' ' || c == '\t' || c == '\u{c}' || c == '\\' || c == '\r' || c == '\n';
    let mut cursor: usize = 0;
    for t in &toks {
        let abs = line_starts[t.start.line - 1] + t.start.col;
        assert!(abs >= cursor, "token starts before the cursor");
        for k in cursor..abs {
            assert!(insignificant(chars[k]), "significant char {:?} skipped", chars[k]);
        }
        assert_eq!(&chars[abs..abs + t.text.len()], &t.text[..], "text is not the input span");
        cursor = abs + t.text.len();
    }
    for k in cursor..chars.len() {
        assert!(insignificant(chars[k]), "significant char {:?} after last token", chars[k]);
    }
}

#[test]
fn test_tokenize() {
    let tokens = tokenize(
        r"
# Test comment
class TestClassDefinition(WithParent1, WithParent2):
    foo = 'bar'

    def foo():
        return 'bar'

test = 'foo'
",
    );
    assert!(tokens.is_ok());
}

#[test]
fn empty_input_yields_empty_sequence() {
    let toks = tokenize("").unwrap();
    assert_eq!(toks.len(), 0);
}

#[test]
fn lone_terminator_yields_one_nl() {
    let toks = tokenize("\n").unwrap();
    assert_eq!(kinds_of(&toks), vec![TokenKind::NL]);
    assert_eq!(text_of(&toks[0]), "\n");
}

#[test]
fn simple_assignment() {
    let toks = tokenize("x = 1\n").unwrap();
    assert_eq!(
        kinds_of(&toks),
        vec![TokenKind::Name, TokenKind::Op, TokenKind::Number, TokenKind::Newline]
    );
    assert_eq!(texts_of(&toks), vec!["x", "=", "1", "\n"]);
    assert_eq!((toks[0].start.line, toks[0].start.col), (1, 0));
    assert_eq!((toks[0].end.line, toks[0].end.col), (1, 1));
    assert_eq!((toks[2].start.line, toks[2].start.col), (1, 4));
    assert_eq!(line_of(&toks[0]), "x = 1\n");
}

#[test]
fn indented_block() {
    let toks = tokenize("if a:\n    b\n").unwrap();
    assert_eq!(
        kinds_of(&toks),
        vec![
            TokenKind::Name,
            TokenKind::Name,
            TokenKind::Op,
            TokenKind::Newline,
            TokenKind::Indent,
            TokenKind::Name,
            TokenKind::Newline,
        ]
    );
    assert_eq!(texts_of(&toks), vec!["if", "a", ":", "\n", "    ", "b", "\n"]);
}

#[test]
fn dedent_on_return_to_column_zero() {
    let toks = tokenize("if a:\n    b\nc\n").unwrap();
    assert_eq!(
        kinds_of(&toks),
        vec![
            TokenKind::Name,
            TokenKind::Name,
            TokenKind::Op,
            TokenKind::Newline,
            TokenKind::Indent,
            TokenKind::Name,
            TokenKind::Newline,
            TokenKind::Dedent,
            TokenKind::Name,
            TokenKind::Newline,
        ]
    );
    assert_eq!(text_of(&toks[7]), "");
    assert_eq!((toks[7].start.line, toks[7].start.col), (3, 0));
}

#[test]
fn balanced_indents_return_stack_to_base() {
    let (toks, stack) = tokenize_with_stack("if a:\n  if b:\n    c\nd\n").unwrap();
    assert_eq!(stack, vec![0]);
    assert_eq!(count(&toks, TokenKind::Indent), 2);
    assert_eq!(count(&toks, TokenKind::Dedent), 2);
}

#[test]
fn open_block_leaves_stack_without_trailing_dedents() {
    let (toks, stack) = tokenize_with_stack("if a:\n    b\n").unwrap();
    assert_eq!(stack, vec![0, 4]);
    assert_eq!(count(&toks, TokenKind::Indent), 1);
    assert_eq!(count(&toks, TokenKind::Dedent), 0);
}

#[test]
fn blank_and_comment_lines_emit_no_indent() {
    let toks = tokenize("   \n# hi\nx\n").unwrap();
    assert_eq!(
        kinds_of(&toks),
        vec![
            TokenKind::NL,
            TokenKind::Comment,
            TokenKind::NL,
            TokenKind::Name,
            TokenKind::Newline,
        ]
    );
    assert_eq!(text_of(&toks[1]), "# hi");
    assert_eq!(text_of(&toks[2]), "\n");
}

#[test]
fn indented_comment_line_keeps_stack() {
    let (toks, stack) = tokenize_with_stack("a\n        # deep comment\nb\n").unwrap();
    assert_eq!(stack, vec![0]);
    assert_eq!(count(&toks, TokenKind::Indent), 0);
    assert_eq!(count(&toks, TokenKind::Dedent), 0);
}

#[test]
fn unindent_mismatch_is_fatal() {
    let r = tokenize("if a:\n    b\n  c\n");
    assert_eq!(r.unwrap_err(), TokenizeError::UnindentMismatch(3));
}

#[test]
fn triple_quoted_single_line() {
    let toks = tokenize("'''ab'''\n").unwrap();
    assert_eq!(kinds_of(&toks), vec![TokenKind::Str, TokenKind::Newline]);
    assert_eq!(text_of(&toks[0]), "'''ab'''");
}

#[test]
fn triple_quoted_across_lines() {
    let toks = tokenize("x = '''a\nb c\nd''' + 1\n").unwrap();
    assert_eq!(
        kinds_of(&toks),
        vec![
            TokenKind::Name,
            TokenKind::Op,
            TokenKind::Str,
            TokenKind::Op,
            TokenKind::Number,
            TokenKind::Newline,
        ]
    );
    assert_eq!(text_of(&toks[2]), "'''a\nb c\nd'''");
    assert_eq!((toks[2].start.line, toks[2].start.col), (1, 4));
    assert_eq!((toks[2].end.line, toks[2].end.col), (3, 4));
    assert_eq!(line_of(&toks[2]), "x = '''a\nb c\nd''' + 1\n");
}

#[test]
fn lone_quote_inside_triple_is_not_its_end() {
    let toks = tokenize("'''a'b'''\n").unwrap();
    assert_eq!(kinds_of(&toks), vec![TokenKind::Str, TokenKind::Newline]);
    assert_eq!(text_of(&toks[0]), "'''a'b'''");
}

#[test]
fn unterminated_triple_is_fatal_at_eof() {
    let r = tokenize("s = '''ab\ncd\n");
    assert_eq!(r.unwrap_err(), TokenizeError::UnterminatedString(1));
}

#[test]
fn unterminated_single_is_fatal_at_eof() {
    let r = tokenize("'abc\n");
    assert_eq!(r.unwrap_err(), TokenizeError::UnterminatedString(1));
}

#[test]
fn single_quote_closed_on_next_line() {
    let toks = tokenize("s = 'ab\ncd'\n").unwrap();
    assert_eq!(
        kinds_of(&toks),
        vec![TokenKind::Name, TokenKind::Op, TokenKind::Str, TokenKind::Newline]
    );
    assert_eq!(text_of(&toks[2]), "'ab\ncd'");
}

#[test]
fn broken_single_quote_continuation_recovers() {
    let toks = tokenize("s = 'ab\nxy\nz\n").unwrap();
    assert_eq!(
        kinds_of(&toks),
        vec![
            TokenKind::Name,
            TokenKind::Op,
            TokenKind::ErrorToken,
            TokenKind::Name,
            TokenKind::Newline,
        ]
    );
    assert_eq!(text_of(&toks[2]), "'ab\nxy\n");
    assert_eq!(line_of(&toks[2]), "s = 'ab\n");
    assert_eq!((toks[2].start.line, toks[2].start.col), (1, 4));
    assert_eq!((toks[2].end.line, toks[2].end.col), (2, 3));
    assert_eq!(text_of(&toks[3]), "z");
}

#[test]
fn escaped_newline_continues_single_quote() {
    let toks = tokenize("s = 'ab\\\ncd'\n").unwrap();
    assert_eq!(
        kinds_of(&toks),
        vec![TokenKind::Name, TokenKind::Op, TokenKind::Str, TokenKind::Newline]
    );
    assert_eq!(text_of(&toks[2]), "'ab\\\ncd'");
}

#[test]
fn prefixed_strings() {
    let toks = tokenize("b'x' r'''y'''\n").unwrap();
    assert_eq!(kinds_of(&toks), vec![TokenKind::Str, TokenKind::Str, TokenKind::Newline]);
    assert_eq!(texts_of(&toks), vec!["b'x'", "r'''y'''", "\n"]);
}

#[test]
fn escaped_quote_does_not_close() {
    let toks = tokenize("'a\\'b'\n").unwrap();
    assert_eq!(kinds_of(&toks), vec![TokenKind::Str, TokenKind::Newline]);
    assert_eq!(text_of(&toks[0]), "'a\\'b'");
}

#[test]
fn tab_counts_as_eight_columns() {
    let (_, stack) = tokenize_with_stack("if a:\n\tb\n").unwrap();
    assert_eq!(stack, vec![0, 8]);
}

#[test]
fn space_then_tab_rounds_up_to_eight() {
    let (_, stack) = tokenize_with_stack("if a:\n \tb\n").unwrap();
    assert_eq!(stack, vec![0, 8]);
}

#[test]
fn tab_then_space_gives_nine() {
    let (_, stack) = tokenize_with_stack("if a:\n\t b\n").unwrap();
    assert_eq!(stack, vec![0, 9]);
}

#[test]
fn tab_matches_eight_spaces_for_comparison() {
    let (toks, stack) = tokenize_with_stack("if a:\n\tb\n        c\n").unwrap();
    assert_eq!(stack, vec![0, 8]);
    assert_eq!(count(&toks, TokenKind::Indent), 1);
    assert_eq!(count(&toks, TokenKind::Dedent), 0);
}

#[test]
fn brackets_suppress_newline_and_indentation() {
    let toks = tokenize("f(a,\n  b)\n").unwrap();
    assert_eq!(
        kinds_of(&toks),
        vec![
            TokenKind::Name,
            TokenKind::Op,
            TokenKind::Name,
            TokenKind::Op,
            TokenKind::NL,
            TokenKind::Name,
            TokenKind::Op,
            TokenKind::Newline,
        ]
    );
    assert_eq!(count(&toks, TokenKind::Indent), 0);
}

#[test]
fn stray_closing_bracket_is_tolerated() {
    let toks = tokenize(")\nx\n").unwrap();
    assert_eq!(
        kinds_of(&toks),
        vec![TokenKind::Op, TokenKind::Newline, TokenKind::Name, TokenKind::Newline]
    );
}

#[test]
fn backslash_continuation_joins_lines() {
    let toks = tokenize("a = \\\n  1\n").unwrap();
    assert_eq!(
        kinds_of(&toks),
        vec![TokenKind::Name, TokenKind::Op, TokenKind::Number, TokenKind::Newline]
    );
    assert_eq!(count(&toks, TokenKind::Indent), 0);
}

#[test]
fn number_forms() {
    let toks = tokenize("0x1f 0b10 0o17 3.14 1e-5 .5 1. 2j\n").unwrap();
    let nums: Vec<String> =
        toks.iter().filter(|t| t.kind == TokenKind::Number).map(text_of).collect();
    assert_eq!(nums, vec!["0x1f", "0b10", "0o17", "3.14", "1e-5", ".5", "1.", "2j"]);
}

#[test]
fn bare_zero_x_splits() {
    let toks = tokenize("0x\n").unwrap();
    assert_eq!(kinds_of(&toks), vec![TokenKind::Number, TokenKind::Name, TokenKind::Newline]);
    assert_eq!(texts_of(&toks), vec!["0", "x", "\n"]);
}

#[test]
fn operators_longest_match() {
    let toks = tokenize("a **= b\nc //= d\ne <= ...\nf -> g\n").unwrap();
    let ops: Vec<String> = toks.iter().filter(|t| t.kind == TokenKind::Op).map(text_of).collect();
    assert_eq!(ops, vec!["**=", "//=", "<=", "...", "->"]);
}

#[test]
fn dot_alone_is_an_operator() {
    let toks = tokenize("a.b\n").unwrap();
    assert_eq!(
        kinds_of(&toks),
        vec![TokenKind::Name, TokenKind::Op, TokenKind::Name, TokenKind::Newline]
    );
}

#[test]
fn unclassifiable_character_is_error_token() {
    let toks = tokenize("$\n").unwrap();
    assert_eq!(kinds_of(&toks), vec![TokenKind::ErrorToken, TokenKind::Newline]);
    assert_eq!(text_of(&toks[0]), "$");
}

#[test]
fn comment_after_code() {
    let toks = tokenize("x = 1 # c\n").unwrap();
    assert_eq!(
        kinds_of(&toks),
        vec![
            TokenKind::Name,
            TokenKind::Op,
            TokenKind::Number,
            TokenKind::Comment,
            TokenKind::Newline,
        ]
    );
    assert_eq!(text_of(&toks[3]), "# c");
}

#[test]
fn trailing_whitespace_line_ends_input() {
    let toks = tokenize("a\n   ").unwrap();
    assert_eq!(kinds_of(&toks), vec![TokenKind::Name, TokenKind::Newline]);
}

#[test]
fn crlf_line_endings() {
    let toks = tokenize("x = 1\r\ny\r\n").unwrap();
    assert_eq!(
        kinds_of(&toks),
        vec![
            TokenKind::Name,
            TokenKind::Op,
            TokenKind::Number,
            TokenKind::Newline,
            TokenKind::Name,
            TokenKind::Newline,
        ]
    );
    assert_eq!(text_of(&toks[3]), "\r\n");
}

#[test]
fn comment_without_terminator() {
    let toks = tokenize("# just a comment").unwrap();
    assert_eq!(kinds_of(&toks), vec![TokenKind::Comment, TokenKind::NL]);
    assert_eq!(text_of(&toks[0]), "# just a comment");
    assert_eq!(text_of(&toks[1]), "");
}

#[test]
fn form_feed_resets_the_column() {
    let (_, stack) = tokenize_with_stack("if a:\n    b\n\u{c}c\n").unwrap();
    assert_eq!(stack, vec![0]);
}

#[test]
fn error_does_not_leak_partial_tokens() {
    let r = tokenize("x = 1\ny = '''never closed\n");
    assert_eq!(r.unwrap_err(), TokenizeError::UnterminatedString(2));
}

#[test]
fn reconstruction_covers_input() {
    check_reconstruction("x = 1\n");
    check_reconstruction("if a:\n    b\nc\n");
    check_reconstruction("x = '''a\nb c\nd''' + 1\n");
    check_reconstruction("   \n# hi\nx\n");
    check_reconstruction("a = \\\n  1\n");
    check_reconstruction("f(a,\n  b)\n");
    check_reconstruction("a\n   ");
}
