use cyborgpl::lexer::{Lexer, Spanned};
use cyborgpl::token::Token;

fn lex(source: &str) -> Result<Vec<Spanned>, String> {
    Lexer::new(source).tokenize()
}

fn shown(source: &str) -> String {
    let tokens = lex(source).unwrap_or_else(|e| panic!("{e}"));
    let texts: Vec<String> = tokens.iter().map(|t| t.token.to_text()).collect();
    texts.join(" ")
}

#[test]
fn an_empty_source_is_one_token() {
    let tokens = lex("").unwrap();
    assert_eq!(tokens.len(), 1);
    assert!(matches!(tokens[0].token, Token::Eof));
    assert_eq!(tokens[0].line, 1);
}

#[test]
fn a_declaration_is_split_into_tokens() {
    assert_eq!(
        shown("var:num 'x y' = (5);"),
        "Var Colon Ident(\"num\") Quoted(\"x y\") Eq LParen Num(5.0, \"5\") RParen Semicolon Eof"
    );
}

#[test]
fn operators_of_one_and_two_characters() {
    assert_eq!(
        shown("( ) { } [ ] , : ; + * / - -> = == ! < <= > >= >> && ||"),
        "LParen RParen LBrace RBrace LBracket RBracket Comma Colon Semicolon Plus Star Slash Minus Arrow Eq EqEq Bang \
         Lt LtEq Gt GtEq Activate AndAnd OrOr Eof"
    );
    assert_eq!(shown(">>="), "Activate Eq Eof");
    assert_eq!(shown("--> ==="), "Minus Arrow EqEq Eq Eof");
}

#[test]
fn words_are_keywords_only_as_a_whole() {
    assert_eq!(
        shown("x xx xxx xxxx not not= nothing stch START END start"),
        "Mul Pow Tetration Ident(\"xxxx\") Not NotEq Ident(\"nothing\") Concat Start End Ident(\"start\") Eof"
    );
    assert_eq!(shown("not ="), "Not Eq Eof");
    assert_eq!(shown("_a1 élan x2"), "Ident(\"_a1\") Ident(\"élan\") Ident(\"x2\") Eof");
}

#[test]
fn every_keyword_is_known() {
    let words = [
        ("var", "Var"),
        ("ref", "Ref"),
        ("func", "Func"),
        ("if", "If"),
        ("else", "Else"),
        ("while", "While"),
        ("return", "Return"),
        ("true", "True"),
        ("false", "False"),
        ("print", "Print"),
        ("overwrite", "Overwrite"),
        ("input", "Input"),
        ("read", "Read"),
        ("clock", "Clock"),
        ("append", "Append"),
        ("length", "Length"),
        ("linkto", "LinkTo"),
    ];
    for (word, name) in words {
        assert_eq!(Token::keyword_from_str(word).map(|t| t.to_text()), Some(name.to_string()));
    }
    assert!(Token::keyword_from_str("num").is_none());
    assert!(Token::keyword_from_str("").is_none());
}

#[test]
fn digit_separators_are_dropped() {
    assert_eq!(shown("1,000,000"), "Num(1000000.0, \"1000000\") Eof");
    assert_eq!(shown("1,00,0"), shown("1000"));
    assert_eq!(shown("1,000.5"), "Num(1000.5, \"1000.5\") Eof");
    assert_eq!(shown("(1), (2)"), "LParen Num(1.0, \"1\") RParen Comma LParen Num(2.0, \"2\") RParen Eof");
    assert_eq!(shown("1, 2"), "Num(1.0, \"1\") Comma Num(2.0, \"2\") Eof");
}

#[test]
fn a_point_belongs_to_a_number_only_before_a_digit() {
    assert_eq!(shown("2.5"), "Num(2.5, \"2.5\") Eof");
    assert!(lex("2.").is_err());
    assert_eq!(lex("2.x").err(), Some("line 1: unexpected character '.'".to_string()));
}

#[test]
fn long_numbers_keep_all_their_digits() {
    assert_eq!(
        shown("999999999999999999999999999999999999999"),
        "Num(9.99999999999999999999999999999999999999e38, \"999999999999999999999999999999999999999\") Eof"
    );
}

#[test]
fn escapes_in_strings() {
    let tokens = lex("\"a\\n\\t\\\"\\\\\\q\"").unwrap();
    match &tokens[0].token {
        Token::Str(s) => assert_eq!(s, "a\n\t\"\\q"),
        other => panic!("{other:?}"),
    }
}

#[test]
fn strings_and_names_may_span_lines_and_lines_are_counted() {
    let tokens = lex("\"a\nb\" 'c\nd'\nx").unwrap();
    let lines: Vec<usize> = tokens.iter().map(|t| t.line).collect();
    assert_eq!(lines, vec![1, 2, 4, 4]);
}

#[test]
fn a_comment_covers_its_line() {
    assert_eq!(shown("# all of this is skipped\n  # and this\nx"), "Mul Eof");
    assert_eq!(shown("#"), "Eof");
}

#[test]
fn a_counted_comment_covers_as_many_lines() {
    let source = "#3 one\ntwo \"\nthree '\nx";
    assert_eq!(shown(source), "Mul Eof");
    let tokens = lex(source).unwrap();
    assert_eq!(tokens[0].line, 4);
}

#[test]
fn a_counted_comment_may_reach_past_the_end() {
    assert_eq!(shown("#5\nx"), "Eof");
    assert_eq!(shown("#99999999999999999999999999 x\ny"), "Eof");
}

#[test]
fn a_comment_behind_code_is_an_error() {
    assert_eq!(
        lex("x\nx # no").err(),
        Some("line 2: '#' comments must start at the beginning of a line".to_string())
    );
}

#[test]
fn lexical_errors_name_their_line() {
    assert_eq!(lex("x\n'abc").err(), Some("line 2: unterminated quoted identifier".to_string()));
    assert_eq!(lex("\n\n\"abc").err(), Some("line 3: unterminated string literal".to_string()));
    assert_eq!(lex("\"abc\\").err(), Some("line 1: unterminated string literal".to_string()));
    assert_eq!(lex("@").err(), Some("line 1: unexpected character '@'".to_string()));
    assert_eq!(lex("a & b").err(), Some("line 1: unexpected character '&'".to_string()));
}

#[test]
fn tokens_end_in_one_eof_and_lines_go_up() {
    let tokens = lex("START\nprint*(1)*;\n#2\n\nEND\n").unwrap();
    for (i, t) in tokens.iter().enumerate() {
        assert_eq!(matches!(t.token, Token::Eof), i + 1 == tokens.len());
        assert!(i == 0 || tokens[i - 1].line <= t.line);
    }
}

#[test]
fn white_space_beyond_ascii_separates_tokens() {
    assert_eq!(shown("x\u{a0}x\u{3000}xx"), "Mul Mul Pow Eof");
}

#[test]
fn a_text_in_a_message_is_quoted_and_escaped() {
    let tokens = lex("\"a\\\"b\\n\"").unwrap();
    assert_eq!(tokens[0].token.to_text(), "Str(\"a\\\"b\\n\")");
}

#[test]
fn a_comment_line_in_front_moves_only_the_lines() {
    let source = "START\n print*\"a\nb\" 'c' (1,000)*;\n#2\nskipped\nEND";
    let plain = lex(source).unwrap();
    let moved = lex(&format!("# any text 'x \"\n{source}")).unwrap();
    assert_eq!(plain.len(), moved.len());
    for (a, b) in plain.iter().zip(&moved) {
        assert_eq!(a.token.to_text(), b.token.to_text());
        assert_eq!(a.line + 1, b.line);
    }
    assert!(lex("x # y").is_err());
    assert!(lex("#\nx # y").is_err());
}
