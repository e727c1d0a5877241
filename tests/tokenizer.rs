use gitql_core::tokenizer::{resolve_symbol_kind, tokenize, Token, TokenKind};

fn kinds(tokens: &[Token]) -> Vec<TokenKind> {
    tokens.iter().map(|t| t.kind).collect()
}

#[test]
fn keywords_resolve_exactly() {
    let cases = [
        ("select", TokenKind::Select),
        ("from", TokenKind::From),
        ("where", TokenKind::Where),
        ("limit", TokenKind::Limit),
        ("offset", TokenKind::Offset),
        ("order", TokenKind::Order),
        ("by", TokenKind::By),
    ];
    for (text, kind) in cases {
        let tokens = tokenize(text.to_string()).unwrap();
        assert_eq!(tokens.len(), 1);
        assert_eq!(tokens[0].kind, kind);
        assert_eq!(tokens[0].literal, text);
        assert_eq!(resolve_symbol_kind(text.to_string()), kind);
    }
}

#[test]
fn keyword_case_variants_are_symbols() {
    for text in ["Select", "FROM", "Where", "selected", "name"] {
        let tokens = tokenize(text.to_string()).unwrap();
        assert_eq!(tokens.len(), 1);
        assert_eq!(tokens[0].kind, TokenKind::Symbol);
        assert_eq!(resolve_symbol_kind(text.to_string()), TokenKind::Symbol);
    }
}

#[test]
fn unexpected_character_reports_its_index() {
    let err = tokenize("select # 1".to_string()).unwrap_err();
    assert_eq!(err.location.start, 7);
    assert_eq!(err.location.end, 7);
    assert_eq!(err.message, "Unexpected character");
}

#[test]
fn unterminated_string_fails() {
    let err = tokenize("select \"abc".to_string()).unwrap_err();
    assert_eq!(err.location.start, 7);
    assert_eq!(err.location.end, 11);
    assert_eq!(err.message, "Unterminated string");
}

#[test]
fn empty_and_blank_input_give_no_tokens() {
    assert!(tokenize(String::new()).unwrap().is_empty());
    assert!(tokenize(" \n\t ".to_string()).unwrap().is_empty());
}

#[test]
fn tokens_reslice_from_the_text() {
    let text = "select name, \"a b\" from commits where id = 42 | x & y *";
    let chars: Vec<char> = text.chars().collect();
    let tokens = tokenize(text.to_string()).unwrap();
    assert_eq!(
        kinds(&tokens),
        vec![
            TokenKind::Select,
            TokenKind::Symbol,
            TokenKind::Comma,
            TokenKind::String,
            TokenKind::From,
            TokenKind::Symbol,
            TokenKind::Where,
            TokenKind::Symbol,
            TokenKind::Equal,
            TokenKind::Number,
            TokenKind::Or,
            TokenKind::Symbol,
            TokenKind::And,
            TokenKind::Symbol,
            TokenKind::Star,
        ]
    );
    for t in &tokens {
        let (a, b) = (t.location.start, t.location.end);
        match t.kind {
            TokenKind::String => {
                assert_eq!(chars[a], '"');
                assert_eq!(chars[b - 1], '"');
                let inner: String = chars[a + 1..b - 1].iter().collect();
                assert_eq!(inner, t.literal);
            }
            TokenKind::Comma | TokenKind::Equal | TokenKind::Or | TokenKind::And | TokenKind::Star => {
                assert_eq!(a, b);
                assert_eq!(chars[a].to_string(), t.literal);
            }
            _ => {
                let s: String = chars[a..b].iter().collect();
                assert_eq!(s, t.literal);
            }
        }
    }
    assert_eq!(tokens[3].literal, "a b");
    assert_eq!(tokens[9].literal, "42");
}

#[test]
fn spans_count_characters_not_bytes() {
    let tokens = tokenize("é = \"ü\" 7".to_string()).unwrap();
    assert_eq!(kinds(&tokens), vec![TokenKind::Symbol, TokenKind::Equal, TokenKind::String, TokenKind::Number]);
    assert_eq!((tokens[0].location.start, tokens[0].location.end), (0, 1));
    assert_eq!((tokens[1].location.start, tokens[1].location.end), (2, 2));
    assert_eq!((tokens[2].location.start, tokens[2].location.end), (4, 7));
    assert_eq!(tokens[2].literal, "ü");
    assert_eq!((tokens[3].location.start, tokens[3].location.end), (8, 9));
}
