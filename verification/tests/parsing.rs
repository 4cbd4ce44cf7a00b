use forge_obsidian::lexer::{tokenize, Token};
use forge_obsidian::parser::{is_builtin_method, BinOperator, Expr, FuncKind, MethodKind, Parser};

fn parse(text: &str) -> Option<Expr> {
    let mut parser = Parser::new(tokenize(text));
    parser.parse_expr()
}

#[test]
fn parses_property_chain() {
    match parse("this.file.name") {
        Some(Expr::Property(chain)) => assert_eq!(chain, vec!["this", "file", "name"]),
        other => panic!("expected Property, got {other:?}"),
    }
}

#[test]
fn parses_standalone_function_call() {
    match parse(r#"contains(file.path, "x")"#) {
        Some(Expr::FuncCall { name, receiver, args }) => {
            assert!(matches!(name, FuncKind::Contains));
            assert!(receiver.is_none());
            assert_eq!(args.len(), 2);
        }
        other => panic!("expected FuncCall, got {other:?}"),
    }
}

#[test]
fn dotted_builtin_becomes_method_call() {
    match parse(r#"file.name.contains("x")"#) {
        Some(Expr::MethodCall { method, args, .. }) => {
            assert!(matches!(method, MethodKind::Contains));
            assert_eq!(args.len(), 1);
        }
        other => panic!("expected MethodCall, got {other:?}"),
    }
}

#[test]
fn dotted_unknown_name_becomes_function_call_with_receiver() {
    match parse(r#"file.hasTag("x")"#) {
        Some(Expr::FuncCall { name, receiver, .. }) => {
            assert!(matches!(name, FuncKind::HasTag));
            assert!(receiver.is_some());
        }
        other => panic!("expected FuncCall, got {other:?}"),
    }
}

#[test]
fn parses_single_comparison() {
    match parse("a != b") {
        Some(Expr::BinOp { op, .. }) => assert!(matches!(op, BinOperator::Neq)),
        other => panic!("expected BinOp, got {other:?}"),
    }
    match parse("a == b") {
        Some(Expr::BinOp { op, .. }) => assert!(matches!(op, BinOperator::Eq)),
        other => panic!("expected BinOp, got {other:?}"),
    }
}

#[test]
fn negation_applies_to_primary_only() {
    assert!(matches!(parse("!file.name"), Some(Expr::Not(_))));
    // a doubled negation does not parse in this grammar
    assert!(parse("!!file.name").is_none());
}

#[test]
fn calls_chain_further() {
    // a call result may be chained into another call
    match parse(r#"file.name.toString().startsWith("x")"#) {
        Some(Expr::MethodCall { method, receiver, .. }) => {
            assert!(matches!(method, MethodKind::StartsWith));
            assert!(matches!(*receiver, Expr::MethodCall { method: MethodKind::ToString, .. }));
        }
        other => panic!("expected chained MethodCall, got {other:?}"),
    }
}

#[test]
fn stray_dots_are_dropped_silently() {
    // property access chained after a call result is unsupported and dropped
    match parse("file.name.toString().foo") {
        Some(Expr::MethodCall { method, .. }) => assert!(matches!(method, MethodKind::ToString)),
        other => panic!("expected MethodCall, got {other:?}"),
    }
    // a trailing dot ends chain collection with the dot consumed
    match parse("file.") {
        Some(Expr::Property(chain)) => assert_eq!(chain, vec!["file"]),
        other => panic!("expected Property, got {other:?}"),
    }
}

#[test]
fn arguments_that_fail_to_parse_are_dropped() {
    match parse("hasTag(, file.name)") {
        Some(Expr::FuncCall { args, .. }) => assert_eq!(args.len(), 1),
        other => panic!("expected FuncCall, got {other:?}"),
    }
}

#[test]
fn builtin_method_set_is_fixed() {
    assert!(is_builtin_method("toString"));
    assert!(is_builtin_method("startsWith"));
    assert!(is_builtin_method("endsWith"));
    assert!(is_builtin_method("contains"));
    assert!(is_builtin_method("slice"));
    assert!(!is_builtin_method("hasTag"));
    assert!(!is_builtin_method("hasLink"));
    assert!(!is_builtin_method("ToString"));
}

#[test]
fn parser_primitives_report_position() {
    let mut parser = Parser::new(tokenize("a.b"));
    assert_eq!(parser.peek(), Some(&Token::Ident("a".into())));
    assert_eq!(parser.advance(), Some(Token::Ident("a".into())));
    assert!(parser.expect(&Token::Dot));
    assert!(!parser.expect(&Token::Dot));
    assert_eq!(parser.advance(), Some(Token::Ident("b".into())));
    assert_eq!(parser.peek(), None);
}
