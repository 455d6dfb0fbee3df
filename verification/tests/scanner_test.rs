use purua::scanner::{Scanner, Token, TokenType};
use purua::token_type::TokenType::{
    Do, End, Eof, If, Int, Less, Name, ParenL, ParenR, Plus, Return, StringLit,
};

// The scanner test fixture: a comment line, then a small program.
const TEST_1_SRC: &str = "-- comment ignored:
if 1 + 1 < 2 do
  print(\"hello, world\")
  return 3
end
        ";

#[test]
fn test_scanned_1() {
    let source = TEST_1_SRC;
    let mut scanner = Scanner::new(source);
    scanner.scan().unwrap();

    let expected = vec![
        Token {
            token_type: If,
            lexeme: "if".to_string(),
            line: 2,
        },
        Token {
            token_type: Int,
            lexeme: "1".to_string(),
            line: 2,
        },
        Token {
            token_type: Plus,
            lexeme: "+".to_string(),
            line: 2,
        },
        Token {
            token_type: Int,
            lexeme: "1".to_string(),
            line: 2,
        },
        Token {
            token_type: Less,
            lexeme: "<".to_string(),
            line: 2,
        },
        Token {
            token_type: Int,
            lexeme: "2".to_string(),
            line: 2,
        },
        Token {
            token_type: Do,
            lexeme: "do".to_string(),
            line: 2,
        },
        Token {
            token_type: Name,
            lexeme: "print".to_string(),
            line: 3,
        },
        Token {
            token_type: ParenL,
            lexeme: "(".to_string(),
            line: 3,
        },
        Token {
            token_type: StringLit,
            lexeme: "\"hello, world\"".to_string(),
            line: 3,
        },
        Token {
            token_type: ParenR,
            lexeme: ")".to_string(),
            line: 3,
        },
        Token {
            token_type: Return,
            lexeme: "return".to_string(),
            line: 4,
        },
        Token {
            token_type: Int,
            lexeme: "3".to_string(),
            line: 4,
        },
        Token {
            token_type: End,
            lexeme: "end".to_string(),
            line: 5,
        },
        Token {
            token_type: Eof,
            lexeme: "".to_string(),
            line: 6,
        },
    ];

    assert_eq!(expected, scanner.tokens);
}

// A larger fixture: 52 assignments of three tokens each, which with
// the closing end-of-input marker scan to 157 tokens.
fn test_2_source() -> String {
    let mut s = String::new();
    for _ in 0..52 {
        s.push_str("a = 1\n");
    }
    s
}

#[test]
fn test_scanned_2() {
    let source = test_2_source();
    let mut scanner = Scanner::new(source.as_str());
    scanner.scan().unwrap();

    assert_eq!(157, scanner.tokens.len());
}

// A string literal broken by a raw line break fails scanning.
const ERROR_1_SRC: &str = "x = \"abc\ndef\"";

#[test]
fn test_scan_failed_1() {
    let source = ERROR_1_SRC;
    let mut scanner = Scanner::new(source);

    assert!(scanner.scan().is_err());
}

#[test]
fn tokenizes_scenario_sequence() {
    // the 15 kinds of `if 1 + 1 < 2 do print("hello, world") return 3 end`
    let source = "if 1 + 1 < 2 do print(\"hello, world\") return 3 end";
    let mut scanner = Scanner::new(source);
    let n = scanner.scan().unwrap();
    assert_eq!(15, n);

    let kinds: Vec<TokenType> = scanner.tokens.iter().map(|t| t.token_type).collect();
    assert_eq!(
        kinds,
        vec![
            If, Int, Plus, Int, Less, Int, Do, Name, ParenL, StringLit, ParenR, Return, Int, End,
            Eof
        ]
    );
}

#[test]
fn string_with_raw_newline_is_a_scan_error() {
    // the literal characters a b c, a real line break, d e f
    let mut scanner = Scanner::new("\"abc\ndef\"");
    assert!(scanner.scan().is_err());
}

#[test]
fn unterminated_string_is_a_scan_error() {
    let mut scanner = Scanner::new("x = \"abc");
    assert!(scanner.scan().is_err());
}

#[test]
fn unexpected_character_is_a_scan_error() {
    let mut scanner = Scanner::new("x = 1 ? 2");
    assert!(scanner.scan().is_err());
}

#[test]
fn token_equality_is_by_kind_alone() {
    let a = Token::new(TokenType::If, "if".to_string(), 2);
    let b = Token::new(TokenType::If, "".to_string(), 99);
    let c = Token::new(TokenType::Do, "do".to_string(), 2);
    assert!(a == b);
    assert!(a != c);
}

#[test]
fn relexing_lexemes_reproduces_their_kinds() {
    // one concrete instance per lexeme class of the round-trip law
    let cases: Vec<(&str, TokenType)> = vec![
        ("(", TokenType::ParenL),
        ("..", TokenType::Dots),
        ("...", TokenType::Concat),
        ("<=", TokenType::Le),
        ("while", TokenType::While),
        ("foo", TokenType::Name),
        ("42", TokenType::Int),
        ("4.25", TokenType::Float),
        ("\"hi\"", TokenType::StringLit),
    ];
    for (lexeme, kind) in cases {
        let source = format!("{} ", lexeme);
        let mut scanner = Scanner::new(source.as_str());
        let n = scanner.scan().unwrap();
        assert_eq!(2, n);
        assert_eq!(kind, scanner.tokens[0].token_type);
        assert_eq!(lexeme, scanner.tokens[0].lexeme);
        assert_eq!(TokenType::Eof, scanner.tokens[1].token_type);
    }
}

#[test]
fn comments_and_blank_lines_leave_kinds_alone() {
    let plain = "a = 1\nb = 2";
    let noisy = "-- leading note\na = 1\n\n\n-- middle note\nb = 2";
    let mut s1 = Scanner::new(plain);
    s1.scan().unwrap();
    let mut s2 = Scanner::new(noisy);
    s2.scan().unwrap();
    let k1: Vec<TokenType> = s1.tokens.iter().map(|t| t.token_type).collect();
    let k2: Vec<TokenType> = s2.tokens.iter().map(|t| t.token_type).collect();
    assert_eq!(k1, k2);
    assert_eq!(0, s1.comments.len());
    assert_eq!(2, s2.comments.len());
    assert_eq!("-- leading note", s2.comments[0].lexeme);
}

#[test]
fn comment_runs_to_end_of_line_only() {
    let mut s = Scanner::new("-- note\nx");
    s.scan().unwrap();
    let kinds: Vec<TokenType> = s.tokens.iter().map(|t| t.token_type).collect();
    assert_eq!(vec![TokenType::Name, TokenType::Eof], kinds);
    assert_eq!(1, s.comments.len());
    assert_eq!(2, s.tokens[0].line);
}
