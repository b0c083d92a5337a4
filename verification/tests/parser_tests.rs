use rust_shell::parser::{parse_line, ParseError, Parser, QuoteKind};

/// Runs the tokenizer over a whole line and concatenates the token texts,
/// skipping errors, the way an interactive session assembles its output.
fn collect_ok(input: &str) -> String {
    let mut p = Parser::new(input);
    let mut out = String::new();
    loop {
        match p.next() {
            None => break,
            Some(Ok(t)) => out.push_str(&t.text),
            Some(Err(_)) => {}
        }
    }
    out
}

/// The token texts, their separator-marker flags, and the error, if any.
fn tokens_of(input: &str) -> (Vec<String>, Vec<bool>, Option<ParseError>) {
    let (toks, err) = parse_line(input);
    let texts = toks.iter().map(|t| t.text.clone()).collect();
    let seps = toks.iter().map(|t| t.sep).collect();
    (texts, seps, err)
}

#[test]
fn test_single_quote() {
    let input = "'testing_quote'";
    let result = collect_ok(input);

    assert_eq!(result, "testing_quote");
}

#[test]
fn test_single_quote_with_space() {
    let input = "'testing      quote'";
    let result = collect_ok(input);

    assert_eq!(result, "testing      quote");
}

#[test]
fn test_single_quote_with_escaped_space() {
    let input = "'testing\\ space'";
    let result = collect_ok(input);

    assert_eq!(result, "testing\\ space");
}

#[test]
fn test_multiple_single_quotes() {
    let input = "'testing' 'multiple' 'quotes'";
    let result = collect_ok(input);

    assert_eq!(result, "testing multiple quotes");
}

#[test]
fn test_single_quote_with_newline() {
    let input = "'line1\nline2'";
    let result = collect_ok(input);

    assert_eq!(result, "line1\nline2");
}

#[test]
fn test_single_quote_with_special_characters() {
    let input = "'hello!$%^&*()'";
    let result = collect_ok(input);

    assert_eq!(result, "hello!$%^&*()");
}

#[test]
fn test_empty_single_quote() {
    let input = "''";
    let result = collect_ok(input);

    assert_eq!(result, "");
}

#[test]
fn test_command_with_single_quotes_and_spaces() {
    let input = "'hello world' > file.txt";
    let result = collect_ok(input);

    assert_eq!(result, "hello world > file.txt");
}

#[test]
fn test_single_quote_with_leading_trailing_spaces() {
    let input = "' hello world '";
    let result = collect_ok(input);

    assert_eq!(result, " hello world ");
}

#[test]
fn test_multiple_single_quote_groups_with_operators() {
    let input = "'hello' > 'world' > file.txt";
    let result = collect_ok(input);

    assert_eq!(result, "hello > world > file.txt");
}

#[test]
fn test_mixed_single_and_double_quotes() {
    let input = "'hello' \"world\"";
    let result = collect_ok(input);

    assert_eq!(result, "hello world");
}

#[test]
fn test_single_quote_with_escaped_backslash() {
    let input = "'hello\\ world'";
    let result = collect_ok(input);

    assert_eq!(result, "hello\\ world");
}

#[test]
fn test_single_quote_with_backslash_inside() {
    let input = "'hello\\world'";
    let result = collect_ok(input);

    assert_eq!(result, "hello\\world");
}

#[test]
fn test_unclosed_single_quote() {
    let input = "'hello world";
    let mut parser = Parser::new(input);

    let result = parser.next();

    // Check if an error was returned and validate the error message.
    assert!(
        result.is_some(),
        "Parser should return an error, but got None"
    );
    let error = result
        .unwrap()
        .expect_err("Expected an error for unclosed single quote");

    assert!(
        error.message().contains("Unclosed single quote"),
        "Error message did not match expected: {}",
        error.message()
    );
}

#[test]
fn test_unclosed_double_quote() {
    let input = r#""hello world"#;

    let mut parser = Parser::new(input);

    let result = parser.next();

    // Check if an error was returned and validate the error message.
    assert!(
        result.is_some(),
        "Parser should return an error, but got None"
    );
    let error = result
        .unwrap()
        .expect_err("Expected an error for unclosed double quote");

    assert!(
        error.message().contains("Unclosed double quote"),
        "Error message did not match expected: {}",
        error.message()
    );
}

#[test]
fn empty_quotes_give_one_empty_token() {
    let (toks, _, err) = tokens_of("''");
    assert!(err.is_none());
    assert_eq!(toks, vec![String::new()]);

    let (toks, _, err) = tokens_of("\"\"");
    assert!(err.is_none());
    assert_eq!(toks, vec![String::new()]);
}

#[test]
fn unclosed_quote_offset_points_into_input() {
    let (toks, _, err) = tokens_of("'abc");
    assert!(toks.is_empty());
    let err = err.expect("an unterminated quote must be reported");
    assert_eq!(err.kind, QuoteKind::Single);
    // consumption stopped at the end of the input, after the opening quote
    assert_eq!(err.offset, "'abc".len());
}

#[test]
fn tokens_before_an_error_remain_intact() {
    let (toks, _, err) = tokens_of("ok 'abc");
    assert_eq!(toks, vec!["ok".to_string(), " ".to_string()]);
    let err = err.expect("an unterminated quote must be reported");
    assert_eq!(err.kind, QuoteKind::Single);
    assert_eq!(err.offset, "ok 'abc".len());
}

#[test]
fn unclosed_quote_offset_counts_bytes_of_multibyte_text() {
    let input = "'héllo";
    let (_, _, err) = tokens_of(input);
    let err = err.expect("an unterminated quote must be reported");
    // the offset is a byte offset: the accented character takes two bytes
    assert_eq!(err.offset, input.len());
    assert_eq!(err.offset, 7);
}

#[test]
fn mixed_quoting_keeps_one_separator_between_tokens() {
    let (toks, seps, err) = tokens_of("'hello'   \"world\"");
    assert!(err.is_none());
    // the whole run of spaces is one separator marker, not a token per space
    assert_eq!(
        toks,
        vec!["hello".to_string(), " ".to_string(), "world".to_string()]
    );
    assert_eq!(seps, vec![false, true, false]);
    let words: Vec<&String> = toks
        .iter()
        .zip(seps.iter())
        .filter(|(_, sep)| !**sep)
        .map(|(t, _)| t)
        .collect();
    assert_eq!(words, vec!["hello", "world"]);
}

#[test]
fn escaped_space_is_a_token_not_a_separator() {
    let (toks, seps, err) = tokens_of("\\ ");
    assert!(err.is_none());
    // exactly one content token holding a literal space
    assert_eq!(toks, vec![" ".to_string()]);
    assert_eq!(seps, vec![false]);

    // an unescaped space gives the same text, but marked as a separator
    let (toks, seps, err) = tokens_of(" ");
    assert!(err.is_none());
    assert_eq!(toks, vec![" ".to_string()]);
    assert_eq!(seps, vec![true]);
}

#[test]
fn escape_at_end_of_input_gives_an_empty_token() {
    let (toks, _, err) = tokens_of("\\");
    assert!(err.is_none());
    assert_eq!(toks, vec![String::new()]);
}

#[test]
fn newline_ends_the_token_sequence() {
    // a newline at a token boundary ends the line: nothing after it is read
    let (toks, _, err) = tokens_of("echo hi \nrest");
    assert!(err.is_none());
    assert_eq!(
        toks,
        vec![
            "echo".to_string(),
            " ".to_string(),
            "hi".to_string(),
            " ".to_string()
        ]
    );
}

#[test]
fn single_quote_does_not_end_a_bare_word() {
    let (toks, _, err) = tokens_of("ab'cd");
    assert!(err.is_none());
    assert_eq!(toks, vec!["ab'cd".to_string()]);
}

#[test]
fn double_quote_ends_a_bare_word() {
    let (toks, _, err) = tokens_of("ab\"cd\"");
    assert!(err.is_none());
    assert_eq!(toks, vec!["ab".to_string(), "cd".to_string()]);
}

#[test]
fn double_quote_unescapes_backslash_and_quote_only() {
    let (toks, _, err) = tokens_of("\"a\\\"b\\\\c\\dd\"");
    assert!(err.is_none());
    assert_eq!(toks, vec!["a\"b\\c\\dd".to_string()]);
}

#[test]
fn tokenizing_twice_yields_identical_sequences() {
    let input = "'a b' \\c d\"e\"";
    let first = tokens_of(input);
    let second = tokens_of(input);
    assert_eq!(first.0, second.0);
    assert_eq!(first.1, second.1);
    assert_eq!(first.2.is_some(), second.2.is_some());

    let bad = "half 'open";
    let first = tokens_of(bad);
    let second = tokens_of(bad);
    assert_eq!(first.0, second.0);
    assert_eq!(first.2.unwrap().offset, second.2.unwrap().offset);
}

#[test]
fn parse_error_message_spells_the_offset() {
    let e = ParseError {
        kind: QuoteKind::Single,
        offset: 12,
    };
    assert_eq!(e.message(), "Unclosed single quote at position 12");
    let e = ParseError {
        kind: QuoteKind::Double,
        offset: 0,
    };
    assert_eq!(e.message(), "Unclosed double quote at position 0");
}

#[test]
fn parser_tracks_byte_positions_across_tokens() {
    let mut p = Parser::new("aé b");
    assert_eq!(p.position, 0);
    assert_eq!(p.next().unwrap().unwrap().text, "aé");
    // "aé" is three bytes long
    assert_eq!(p.position, 3);
    let sep = p.next().unwrap().unwrap();
    assert_eq!(sep.text, " ");
    assert!(sep.sep);
    assert_eq!(p.position, 4);
    assert_eq!(p.next().unwrap().unwrap().text, "b");
    assert_eq!(p.position, 5);
    assert!(p.next().is_none());
}
