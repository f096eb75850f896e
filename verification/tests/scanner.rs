use expr_lexer::token::{Token, TokenKind};
use expr_lexer::tokenizer::Tokenizer;

fn kinds_of(tokens: &[Token]) -> Vec<TokenKind> {
    tokens.iter().map(|t| t.kind).collect()
}

fn raws_of(tokens: &[Token]) -> Vec<&str> {
    tokens.iter().map(|t| t.raw.as_str()).collect()
}

#[test]
fn ident_add_ident() {
    let mut tokenizer = Tokenizer::new("a+b");
    let tokens = tokenizer.tokenize();
    assert_eq!(kinds_of(&tokens), vec![TokenKind::Ident, TokenKind::Add, TokenKind::Ident]);
    assert_eq!(raws_of(&tokens), vec!["a", "+", "b"]);
}

#[test]
fn ident_le_number() {
    let mut tokenizer = Tokenizer::new("x<=10");
    let tokens = tokenizer.tokenize();
    assert_eq!(kinds_of(&tokens), vec![TokenKind::Ident, TokenKind::Le, TokenKind::Number]);
    assert_eq!(raws_of(&tokens), vec!["x", "<=", "10"]);
}

#[test]
fn ident_implies_ident() {
    let mut tokenizer = Tokenizer::new("p=>q");
    let tokens = tokenizer.tokenize();
    assert_eq!(kinds_of(&tokens), vec![TokenKind::Ident, TokenKind::Implies, TokenKind::Ident]);
    assert_eq!(raws_of(&tokens), vec!["p", "=>", "q"]);
}

#[test]
fn surrounding_whitespace_is_skipped() {
    let mut tokenizer = Tokenizer::new("  42  ");
    let tokens = tokenizer.tokenize();
    assert_eq!(tokens.len(), 1);
    assert_eq!(tokens[0].kind, TokenKind::Number);
    assert_eq!(tokens[0].raw, "42");
    assert_eq!(tokens[0].start, 2);
    assert_eq!(tokens[0].end, 4);
}

#[test]
fn unknown_character_stands_alone() {
    let mut tokenizer = Tokenizer::new("a!=b&c");
    let tokens = tokenizer.tokenize();
    assert_eq!(
        kinds_of(&tokens),
        vec![
            TokenKind::Ident,
            TokenKind::Neq,
            TokenKind::Ident,
            TokenKind::Unknown,
            TokenKind::Ident,
        ]
    );
    assert_eq!(raws_of(&tokens), vec!["a", "!=", "b", "&", "c"]);
}

#[test]
fn empty_input_has_no_tokens() {
    let mut tokenizer = Tokenizer::new("");
    let tokens = tokenizer.tokenize();
    assert!(tokens.is_empty());

    let mut single = Tokenizer::new("");
    let t = single.next_token();
    assert_eq!(t.kind, TokenKind::Eof);
    assert_eq!(t.raw, "");
    assert_eq!(t.start, 0);
    assert_eq!(t.end, 0);
}

#[test]
fn digit_run_is_never_split() {
    let mut tokenizer = Tokenizer::new("123");
    let tokens = tokenizer.tokenize();
    assert_eq!(tokens.len(), 1);
    assert_eq!(tokens[0].kind, TokenKind::Number);
    assert_eq!(tokens[0].raw, "123");
    assert_eq!(tokens[0].start, 0);
    assert_eq!(tokens[0].end, 3);
}

#[test]
fn letter_run_is_never_split() {
    let mut tokenizer = Tokenizer::new("AbC");
    let tokens = tokenizer.tokenize();
    assert_eq!(tokens.len(), 1);
    assert_eq!(tokens[0].kind, TokenKind::Ident);
    assert_eq!(tokens[0].raw, "AbC");
}

#[test]
fn digits_end_a_letter_run() {
    let mut tokenizer = Tokenizer::new("abc123");
    let tokens = tokenizer.tokenize();
    assert_eq!(kinds_of(&tokens), vec![TokenKind::Ident, TokenKind::Number]);
    assert_eq!(raws_of(&tokens), vec!["abc", "123"]);
}

#[test]
fn nine_starts_a_number() {
    let mut tokenizer = Tokenizer::new("9");
    let tokens = tokenizer.tokenize();
    assert_eq!(kinds_of(&tokens), vec![TokenKind::Number]);
    assert_eq!(raws_of(&tokens), vec!["9"]);
}

#[test]
fn underscore_ends_a_letter_run() {
    let mut tokenizer = Tokenizer::new("a_b");
    let tokens = tokenizer.tokenize();
    assert_eq!(
        kinds_of(&tokens),
        vec![TokenKind::Ident, TokenKind::Underscore, TokenKind::Ident]
    );
}

#[test]
fn dot_is_not_fused_into_a_number() {
    let mut tokenizer = Tokenizer::new("1.5");
    let tokens = tokenizer.tokenize();
    assert_eq!(kinds_of(&tokens), vec![TokenKind::Number, TokenKind::Dot, TokenKind::Number]);
    assert_eq!(raws_of(&tokens), vec!["1", ".", "5"]);
}

#[test]
fn every_single_character_symbol() {
    let mut tokenizer = Tokenizer::new(",:;#$@_()[]{}.+-*/");
    let tokens = tokenizer.tokenize();
    assert_eq!(
        kinds_of(&tokens),
        vec![
            TokenKind::Comma,
            TokenKind::Colon,
            TokenKind::Semicolon,
            TokenKind::Pound,
            TokenKind::Dollar,
            TokenKind::At,
            TokenKind::Underscore,
            TokenKind::Lparen,
            TokenKind::Rparen,
            TokenKind::Lsquare,
            TokenKind::Rsquare,
            TokenKind::Lcurly,
            TokenKind::Rcurly,
            TokenKind::Dot,
            TokenKind::Add,
            TokenKind::Sub,
            TokenKind::Mul,
            TokenKind::Div,
        ]
    );
    for (i, t) in tokens.iter().enumerate() {
        assert_eq!(t.start, i);
        assert_eq!(t.end, i + 1);
        assert_eq!(t.raw.chars().count(), 1);
    }
}

#[test]
fn two_character_operators_and_their_prefixes() {
    let cases = vec![
        ("=", TokenKind::Eq),
        ("=>", TokenKind::Implies),
        ("!", TokenKind::Bang),
        ("!=", TokenKind::Neq),
        ("<", TokenKind::Lt),
        ("<=", TokenKind::Le),
        ("<-", TokenKind::Gets),
        (">", TokenKind::Gt),
        (">=", TokenKind::Ge),
    ];
    for (src, kind) in cases {
        let mut tokenizer = Tokenizer::new(src);
        let tokens = tokenizer.tokenize();
        assert_eq!(tokens.len(), 1);
        assert_eq!(tokens[0].kind, kind);
        assert_eq!(tokens[0].raw, src);
        assert_eq!(tokens[0].start, 0);
        assert_eq!(tokens[0].end, src.len());
    }
}

#[test]
fn gets_between_identifiers() {
    let mut tokenizer = Tokenizer::new("x<-y");
    let tokens = tokenizer.tokenize();
    assert_eq!(kinds_of(&tokens), vec![TokenKind::Ident, TokenKind::Gets, TokenKind::Ident]);
}

#[test]
fn eq_not_followed_by_gt_stays_eq() {
    let mut tokenizer = Tokenizer::new("a=b");
    let tokens = tokenizer.tokenize();
    assert_eq!(kinds_of(&tokens), vec![TokenKind::Ident, TokenKind::Eq, TokenKind::Ident]);
}

#[test]
fn exhausted_scanner_returns_eof_forever() {
    let mut tokenizer = Tokenizer::new("a");
    let first = tokenizer.next_token();
    assert_eq!(first.kind, TokenKind::Ident);
    for _ in 0..3 {
        let t = tokenizer.next_token();
        assert_eq!(t.kind, TokenKind::Eof);
        assert_eq!(t.raw, "");
        assert_eq!(t.start, t.end);
        assert_eq!(t.start, 1);
    }
}

#[test]
fn tokenize_after_exhaustion_is_empty() {
    let mut tokenizer = Tokenizer::new("a + 1");
    let first = tokenizer.tokenize();
    assert_eq!(first.len(), 3);
    let second = tokenizer.tokenize();
    assert!(second.is_empty());
}

#[test]
fn peek_does_not_consume_and_advance_does() {
    let mut tokenizer = Tokenizer::new("ab");
    assert_eq!(tokenizer.peek(), Some('a'));
    assert_eq!(tokenizer.peek(), Some('a'));
    assert_eq!(tokenizer.advance(), Some('a'));
    assert_eq!(tokenizer.peek(), Some('b'));
    assert_eq!(tokenizer.advance(), Some('b'));
    assert_eq!(tokenizer.advance(), None);
    assert_eq!(tokenizer.peek(), None);
}

#[test]
fn offsets_count_characters_not_bytes() {
    // A non-ASCII character is a single Unknown token one character wide.
    let mut tokenizer = Tokenizer::new("a\u{e9}1");
    let tokens = tokenizer.tokenize();
    assert_eq!(
        kinds_of(&tokens),
        vec![TokenKind::Ident, TokenKind::Unknown, TokenKind::Number]
    );
    assert_eq!(raws_of(&tokens), vec!["a", "\u{e9}", "1"]);
    assert_eq!(tokens[1].start, 1);
    assert_eq!(tokens[1].end, 2);
    assert_eq!(tokens[2].start, 2);
    assert_eq!(tokens[2].end, 3);
}

#[test]
fn mixed_whitespace_separates_tokens() {
    let mut tokenizer = Tokenizer::new("a\tb\nc");
    let tokens = tokenizer.tokenize();
    assert_eq!(kinds_of(&tokens), vec![TokenKind::Ident, TokenKind::Ident, TokenKind::Ident]);
    assert_eq!(tokens[0].start, 0);
    assert_eq!(tokens[1].start, 2);
    assert_eq!(tokens[2].start, 4);
}

#[test]
fn raws_and_gaps_reconstruct_the_input() {
    for src in ["  1 +x ", "a!=b&c", "", "   ", "12 foo(bar)=>baz  <- .."] {
        let chars: Vec<char> = src.chars().collect();
        let mut tokenizer = Tokenizer::new(src);
        let tokens = tokenizer.tokenize();
        let mut rebuilt = String::new();
        let mut at = 0;
        for t in &tokens {
            let gap: String = chars[at..t.start].iter().collect();
            assert!(gap.chars().all(|c| c.is_whitespace()));
            rebuilt.push_str(&gap);
            rebuilt.push_str(&t.raw);
            at = t.end;
        }
        let tail: String = chars[at..].iter().collect();
        assert!(tail.chars().all(|c| c.is_whitespace()));
        rebuilt.push_str(&tail);
        assert_eq!(rebuilt, src);
    }
}

#[test]
fn offsets_are_monotonic_and_in_range() {
    let src = "  12 foo(bar) =>baz<-qux  !ok ..";
    let n = src.chars().count();
    let mut tokenizer = Tokenizer::new(src);
    let tokens = tokenizer.tokenize();
    assert!(!tokens.is_empty());
    for t in &tokens {
        assert!(t.start < t.end);
        assert!(t.end <= n);
        assert_eq!(t.raw.chars().count(), t.end - t.start);
    }
    for pair in tokens.windows(2) {
        assert!(pair[0].end <= pair[1].start);
    }
}

#[test]
fn single_step_and_bulk_agree() {
    let src = " x <= 10  => y!=z ";
    let mut bulk = Tokenizer::new(src);
    let tokens = bulk.tokenize();
    let mut single = Tokenizer::new(src);
    for expected in &tokens {
        let t = single.next_token();
        assert_eq!(t.kind, expected.kind);
        assert_eq!(t.raw, expected.raw);
        assert_eq!(t.start, expected.start);
        assert_eq!(t.end, expected.end);
    }
    assert_eq!(single.next_token().kind, TokenKind::Eof);
}
