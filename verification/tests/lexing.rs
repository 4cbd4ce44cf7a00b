use forge_obsidian::lexer::{tokenize, Token};

#[test]
fn tokenize_contains_call() {
    let tokens = tokenize(r#"contains(file.path, "Inventory")"#);
    assert_eq!(tokens[0], Token::Ident("contains".into()));
    assert_eq!(tokens[1], Token::LParen);
    assert_eq!(tokens[2], Token::Ident("file".into()));
    assert_eq!(tokens[3], Token::Dot);
    assert_eq!(tokens[4], Token::Ident("path".into()));
    assert_eq!(tokens[5], Token::Comma);
    assert_eq!(tokens[6], Token::Str("Inventory".into()));
    assert_eq!(tokens[7], Token::RParen);
}

#[test]
fn tokenize_neq() {
    let tokens = tokenize("file.fullname != this.file.fullname");
    assert!(tokens.contains(&Token::Neq));
}

#[test]
fn tokenize_negation() {
    let tokens = tokenize(r#"!file.name.contains("template")"#);
    assert_eq!(tokens[0], Token::Not);
    assert_eq!(tokens[1], Token::Ident("file".into()));
}

#[test]
fn tokenize_eq_and_lone_equals() {
    let tokens = tokenize("a == b");
    assert_eq!(tokens, vec![Token::Ident("a".into()), Token::Eq, Token::Ident("b".into())]);
    // a lone `=` never tokenizes
    let tokens = tokenize("a = b");
    assert_eq!(tokens, vec![Token::Ident("a".into()), Token::Ident("b".into())]);
}

#[test]
fn tokenize_numbers() {
    assert_eq!(tokenize("42"), vec![Token::Int(42)]);
    assert_eq!(tokenize("-17"), vec![Token::Int(-17)]);
    // leading zeros normalize through the numeric value
    assert_eq!(tokenize("007"), vec![Token::Int(7)]);
    // a value too large for the numeric type degrades to zero
    assert_eq!(tokenize("99999999999999999999"), vec![Token::Int(0)]);
    // a bare minus without digits is skipped
    assert_eq!(tokenize("- x"), vec![Token::Ident("x".into())]);
}

#[test]
fn tokenize_unterminated_string() {
    // an unterminated quoted literal runs to end of input without failing
    let tokens = tokenize(r#""abc"#);
    assert_eq!(tokens, vec![Token::Str("abc".into())]);
}

#[test]
fn tokenize_skips_unknown_characters() {
    let tokens = tokenize("a %$ b");
    assert_eq!(tokens, vec![Token::Ident("a".into()), Token::Ident("b".into())]);
}

#[test]
fn tokenize_wide_identifiers() {
    // path segments, tags and words lex as one identifier class
    let tokens = tokenize("type/item_2 #tag");
    assert_eq!(tokens, vec![Token::Ident("type/item_2".into()), Token::Ident("#tag".into())]);
}
