use compose::directive::{parse_token, ParseError, Token, TokenKind};
use compose::engine::{find_token, process_source, RedactError};

fn b(s: &str) -> Vec<u8> {
    s.as_bytes().to_vec()
}

fn lines_of(ls: &[&str]) -> Vec<Vec<u8>> {
    ls.iter().map(|l| b(l)).collect()
}

fn redact(s: &str) -> Result<String, RedactError> {
    process_source(&b(s)).map(|v| String::from_utf8(v).unwrap())
}

#[test]
fn identity_no_directives() {
    let src = "fn main() {\n    let x = 1;\n}\n";
    assert_eq!(redact(src).unwrap(), src);
}

#[test]
fn identity_twice_no_directives() {
    let src = "alpha\nbeta\n\ngamma\n";
    let once = redact(src).unwrap();
    let twice = redact(&once).unwrap();
    assert_eq!(once, src);
    assert_eq!(twice, once);
}

#[test]
fn final_newline_added() {
    assert_eq!(redact("abc").unwrap(), "abc\n");
}

#[test]
fn empty_input() {
    assert_eq!(redact("").unwrap(), "");
}

#[test]
fn crlf_normalized() {
    assert_eq!(redact("a\r\nb\r\n").unwrap(), "a\nb\n");
}

#[test]
fn private_line_replaced() {
    let src = "fn f() {\n    let secret = 42; // compose::private\n}\n";
    assert_eq!(redact(src).unwrap(), "fn f() {\n    // TODO: your code here.\n}\n");
}

#[test]
fn private_line_unimplemented() {
    let src = "fn f() {\n    secret(); // compose::private(unimplemented)\n}\n";
    assert_eq!(
        redact(src).unwrap(),
        "fn f() {\n    // TODO: your code here.\n    unimplemented!()\n}\n"
    );
}

#[test]
fn private_line_no_hint() {
    let src = "a\nsecret // compose::private(no_hint)\nb\n";
    assert_eq!(redact(src).unwrap(), "a\nb\n");
}

#[test]
fn block_collapses_to_one_placeholder() {
    let src = "a\n// compose::begin_private\nsecret1\nsecret2\n// compose::end_private\nb\n";
    let out = redact(src).unwrap();
    assert_eq!(out, "a\n// TODO: your code here.\nb\n");
    assert!(!out.contains("secret1"));
    assert!(!out.contains("secret2"));
}

#[test]
fn block_keeps_directive_indentation() {
    let src = "fn f() {\n    // compose::begin_private(unimplemented)\n    secret();\n    // compose::end_private\n}\n";
    assert_eq!(
        redact(src).unwrap(),
        "fn f() {\n    // TODO: your code here.\n    unimplemented!()\n}\n"
    );
}

#[test]
fn block_with_interior_private_line() {
    let src = "a\n// compose::begin_private\nx // compose::private\ny\n// compose::end_private\nb\n";
    assert_eq!(redact(src).unwrap(), "a\n// TODO: your code here.\nb\n");
}

#[test]
fn no_hint_block_emits_nothing() {
    let src = "a\n// compose::begin_private(no_hint)\nsecret\n// compose::end_private\nb\n";
    assert_eq!(redact(src).unwrap(), "a\nb\n");
}

#[test]
fn no_hint_block_blank_collapse() {
    let src = "a\n\n// compose::begin_private(no_hint)\nsecret\n// compose::end_private\n\nb\n";
    assert_eq!(redact(src).unwrap(), "a\n\nb\n");
}

#[test]
fn no_hint_block_one_blank_side_kept() {
    let src = "a\n// compose::begin_private(no_hint)\nsecret\n// compose::end_private\n\nb\n";
    assert_eq!(redact(src).unwrap(), "a\n\nb\n");
}

#[test]
fn unpaired_end_private_line_two() {
    let err = redact("foo();\n// compose::end_private\n").unwrap_err();
    assert_eq!(err, RedactError::UnpairedEnd { line: 2 });
    assert_eq!(err.line(), 2);
}

#[test]
fn nested_begin_private_fails() {
    let err = redact("// compose::begin_private\n// compose::begin_private\n").unwrap_err();
    assert_eq!(err, RedactError::NestedBegin { line: 2 });
}

#[test]
fn unclosed_begin_private_fails() {
    let err = redact("x\n// compose::begin_private\ny\n").unwrap_err();
    assert_eq!(err, RedactError::UnclosedBegin { line: 2 });
}

#[test]
fn unknown_command_fails() {
    let err = redact("a\n// compose::frobnicate\n").unwrap_err();
    assert_eq!(err, RedactError::UnknownCommand { line: 2 });
}

#[test]
fn unknown_property_fails() {
    let err = redact("// compose::private(nope)\n").unwrap_err();
    assert_eq!(err, RedactError::UnknownProperty { line: 1 });
}

#[test]
fn unclosed_parenthesis_fails() {
    let err = redact("// compose::private(no_hint\n").unwrap_err();
    assert_eq!(err, RedactError::UnclosedParen { line: 1 });
}

#[test]
fn parse_token_plain_code() {
    assert_eq!(parse_token(&b("let x = compose::private;")), Ok(None));
}

#[test]
fn parse_token_plain_comment() {
    assert_eq!(parse_token(&b("// just a comment")), Ok(None));
}

#[test]
fn parse_token_private() {
    assert_eq!(
        parse_token(&b("// compose::private")),
        Ok(Some(Token { kind: TokenKind::Private, no_hint: false, unimplemented: false }))
    );
}

#[test]
fn parse_token_both_properties() {
    assert_eq!(
        parse_token(&b("x // compose::private(no_hint,unimplemented)")),
        Ok(Some(Token { kind: TokenKind::Private, no_hint: true, unimplemented: true }))
    );
}

#[test]
fn parse_token_empty_property_list() {
    assert_eq!(
        parse_token(&b("// compose::begin_private()")),
        Ok(Some(Token { kind: TokenKind::BeginPrivate, no_hint: false, unimplemented: false }))
    );
}

#[test]
fn parse_token_trailing_comma_fails() {
    assert_eq!(
        parse_token(&b("// compose::private(no_hint,)")),
        Err(ParseError::UnknownProperty)
    );
}

#[test]
fn parse_token_keyword_prefix_leftover() {
    // prefix matching: leftover text after the keyword is consumed silently
    assert_eq!(
        parse_token(&b("// compose::private_stuff")),
        Ok(Some(Token { kind: TokenKind::Private, no_hint: false, unimplemented: false }))
    );
}

#[test]
fn parse_token_end_private() {
    assert_eq!(
        parse_token(&b("// compose::end_private")),
        Ok(Some(Token { kind: TokenKind::EndPrivate, no_hint: false, unimplemented: false }))
    );
}

#[test]
fn parse_token_prefix_before_comment_ignored() {
    // the control prefix counts only strictly after the comment marker
    assert_eq!(parse_token(&b("compose::private // plain comment")), Ok(None));
}

#[test]
fn parse_token_directive_after_text() {
    assert_eq!(
        parse_token(&b("code(); // note compose::end_private")),
        Ok(Some(Token { kind: TokenKind::EndPrivate, no_hint: false, unimplemented: false }))
    );
}

#[test]
fn parse_token_property_with_space_fails() {
    assert_eq!(
        parse_token(&b("// compose::private( no_hint)")),
        Err(ParseError::UnknownProperty)
    );
}

#[test]
fn private_line_without_final_newline() {
    assert_eq!(redact("x // compose::private").unwrap(), "// TODO: your code here.\n");
}

#[test]
fn block_spanning_whole_file() {
    let src = "// compose::begin_private\nsecret\n// compose::end_private\n";
    assert_eq!(redact(src).unwrap(), "// TODO: your code here.\n");
}

#[test]
fn no_hint_at_end_of_file_keeps_leading_blank() {
    // no line follows the region, so nothing is absorbed
    assert_eq!(redact("\nx // compose::private(no_hint)\n").unwrap(), "\n");
}

#[test]
fn find_token_first_directive() {
    let lines = lines_of(&["a", "// compose::private", "b"]);
    let r = find_token(&lines, 0).unwrap();
    assert_eq!(
        r,
        Some((1, Token { kind: TokenKind::Private, no_hint: false, unimplemented: false }))
    );
}

#[test]
fn find_token_none_after_start() {
    let lines = lines_of(&["a", "// compose::private", "b"]);
    assert_eq!(find_token(&lines, 2).unwrap(), None);
}

#[test]
fn find_token_reports_absolute_line() {
    let lines = lines_of(&["a", "b", "// compose::bogus"]);
    let err = find_token(&lines, 1).unwrap_err();
    assert_eq!(err, RedactError::UnknownCommand { line: 3 });
}
