use monkey_front::lexer::Lexer;
use monkey_front::token::{lookup_ident, Location, Token, TokenKind};

#[test]
fn next_token_full_set() {
    let input = "let five = 5;\n\
        let ten = 10;\n\
        let add = fn(x, y) {\n\
        x + y;\n\
        };\n\
        let result = add(five, ten);\n\
        !-/*5;\n\
        5 < 10 > 5;\n\
        \n\
        if (5 < 10) {\n\
            return true;\n\
        } else {\n\
            return false;\n\
        }\n\
        \n\
        10 == 10;\n\
        10 != 9;\n\
        ";

    let test_arr = [
        Token::new(TokenKind::LET, None),
        Token::new(TokenKind::IDENT(String::from("five")), None),
        Token::new(TokenKind::ASSIGN, None),
        Token::new(TokenKind::INT(5), None),
        Token::new(TokenKind::SEMICOLON, None),
        Token::new(TokenKind::LET, None),
        Token::new(TokenKind::IDENT(String::from("ten")), None),
        Token::new(TokenKind::ASSIGN, None),
        Token::new(TokenKind::INT(10), None),
        Token::new(TokenKind::SEMICOLON, None),
        Token::new(TokenKind::LET, None),
        Token::new(TokenKind::IDENT(String::from("add")), None),
        Token::new(TokenKind::ASSIGN, None),
        Token::new(TokenKind::FUNCTION, None),
        Token::new(TokenKind::LPAREN, None),
        Token::new(TokenKind::IDENT(String::from("x")), None),
        Token::new(TokenKind::COMMA, None),
        Token::new(TokenKind::IDENT(String::from("y")), None),
        Token::new(TokenKind::RPAREN, None),
        Token::new(TokenKind::LBRACE, None),
        Token::new(TokenKind::IDENT(String::from("x")), None),
        Token::new(TokenKind::PLUS, None),
        Token::new(TokenKind::IDENT(String::from("y")), None),
        Token::new(TokenKind::SEMICOLON, None),
        Token::new(TokenKind::RBRACE, None),
        Token::new(TokenKind::SEMICOLON, None),
        Token::new(TokenKind::LET, None),
        Token::new(TokenKind::IDENT(String::from("result")), None),
        Token::new(TokenKind::ASSIGN, None),
        Token::new(TokenKind::IDENT(String::from("add")), None),
        Token::new(TokenKind::LPAREN, None),
        Token::new(TokenKind::IDENT(String::from("five")), None),
        Token::new(TokenKind::COMMA, None),
        Token::new(TokenKind::IDENT(String::from("ten")), None),
        Token::new(TokenKind::RPAREN, None),
        Token::new(TokenKind::SEMICOLON, None),
        Token::new(TokenKind::BANG, None),
        Token::new(TokenKind::MINUS, None),
        Token::new(TokenKind::SLASH, None),
        Token::new(TokenKind::ASTERISK, None),
        Token::new(TokenKind::INT(5), None),
        Token::new(TokenKind::SEMICOLON, None),
        Token::new(TokenKind::INT(5), None),
        Token::new(TokenKind::LT, None),
        Token::new(TokenKind::INT(10), None),
        Token::new(TokenKind::GT, None),
        Token::new(TokenKind::INT(5), None),
        Token::new(TokenKind::SEMICOLON, None),
        Token::new(TokenKind::IF, None),
        Token::new(TokenKind::LPAREN, None),
        Token::new(TokenKind::INT(5), None),
        Token::new(TokenKind::LT, None),
        Token::new(TokenKind::INT(10), None),
        Token::new(TokenKind::RPAREN, None),
        Token::new(TokenKind::LBRACE, None),
        Token::new(TokenKind::RETURN, None),
        Token::new(TokenKind::TRUE, None),
        Token::new(TokenKind::SEMICOLON, None),
        Token::new(TokenKind::RBRACE, None),
        Token::new(TokenKind::ELSE, None),
        Token::new(TokenKind::LBRACE, None),
        Token::new(TokenKind::RETURN, None),
        Token::new(TokenKind::FALSE, None),
        Token::new(TokenKind::SEMICOLON, None),
        Token::new(TokenKind::RBRACE, None),
        Token::new(TokenKind::INT(10), None),
        Token::new(TokenKind::EQ, None),
        Token::new(TokenKind::INT(10), None),
        Token::new(TokenKind::SEMICOLON, None),
        Token::new(TokenKind::INT(10), None),
        Token::new(TokenKind::NEQ, None),
        Token::new(TokenKind::INT(9), None),
        Token::new(TokenKind::SEMICOLON, None),
        Token::new(TokenKind::EOF, None),
    ];

    let mut l = Lexer::new(input, true, None);

    for tt in test_arr.iter() {
        let tok = l.next_token();
        assert_eq!(tok.ttype, tt.ttype);
        assert_eq!(tok.literal, tt.literal)
    }
}

fn kinds(input: &str) -> Vec<TokenKind> {
    let mut l = Lexer::new(input, true, None);
    let mut out = Vec::new();
    loop {
        let tok = l.next_token();
        let done = tok.ttype == TokenKind::EOF;
        out.push(tok.ttype);
        if done {
            return out;
        }
    }
}

fn place(tok: &Token) -> (usize, usize, String) {
    let (row, col, file) = tok.local().expect("a location").get();
    (row, col, file.to_string())
}

#[test]
fn fixed_kinds_have_canonical_literals() {
    let table = [
        (TokenKind::ILLEGAL, "ILLEGAL"),
        (TokenKind::EOF, ""),
        (TokenKind::ASSIGN, "="),
        (TokenKind::PLUS, "+"),
        (TokenKind::MINUS, "-"),
        (TokenKind::BANG, "!"),
        (TokenKind::ASTERISK, "*"),
        (TokenKind::SLASH, "/"),
        (TokenKind::LT, "<"),
        (TokenKind::GT, ">"),
        (TokenKind::EQ, "=="),
        (TokenKind::NEQ, "!="),
        (TokenKind::COMMA, ","),
        (TokenKind::SEMICOLON, ";"),
        (TokenKind::LPAREN, "("),
        (TokenKind::RPAREN, ")"),
        (TokenKind::LBRACE, "{"),
        (TokenKind::RBRACE, "}"),
        (TokenKind::FUNCTION, "FUNCTION"),
        (TokenKind::LET, "LET"),
        (TokenKind::TRUE, "TRUE"),
        (TokenKind::FALSE, "FALSE"),
        (TokenKind::IF, "IF"),
        (TokenKind::ELSE, "ELSE"),
        (TokenKind::RETURN, "RETURN"),
    ];
    for (kind, literal) in table.iter() {
        assert_eq!(Token::new(kind.clone(), None).literal, *literal);
    }
}

#[test]
fn literal_does_not_depend_on_surrounding_whitespace() {
    for input in ["a!=b", "a != b", "a \t\r\n !=   \n b"] {
        let mut l = Lexer::new(input, true, None);
        l.next_token();
        let tok = l.next_token();
        assert_eq!(tok.ttype, TokenKind::NEQ);
        assert_eq!(tok.literal, "!=");
    }
    let mut l = Lexer::new(" \n return\t", true, None);
    let tok = l.next_token();
    assert_eq!(tok.ttype, TokenKind::RETURN);
    assert_eq!(tok.literal, "RETURN");
}

#[test]
fn data_tokens_are_written_as_matched() {
    let mut l = Lexer::new("foo_bar 007 42", true, None);
    let word = l.next_token();
    assert_eq!(word.ttype, TokenKind::IDENT(String::from("foo_bar")));
    assert_eq!(word.literal, "foo_bar");
    let padded = l.next_token();
    assert_eq!(padded.ttype, TokenKind::INT(7));
    assert_eq!(padded.literal, "007");
    let plain = l.next_token();
    assert_eq!(plain.ttype, TokenKind::INT(42));
    assert_eq!(plain.literal, "42");
}

#[test]
fn integer_tokens_render_their_value() {
    assert_eq!(Token::new(TokenKind::INT(0), None).literal, "0");
    assert_eq!(Token::new(TokenKind::INT(838383), None).literal, "838383");
    assert_eq!(Token::new(TokenKind::INT(-5), None).literal, "-5");
    assert_eq!(
        Token::new(TokenKind::INT(i128::MAX), None).literal,
        "170141183460469231731687303715884105727"
    );
    assert_eq!(
        Token::new(TokenKind::INT(i128::MIN), None).literal,
        "-170141183460469231731687303715884105728"
    );
}

#[test]
fn word_is_one_maximal_run_of_letters() {
    assert_eq!(
        kinds("foobar123"),
        vec![
            TokenKind::IDENT(String::from("foobar")),
            TokenKind::INT(123),
            TokenKind::EOF
        ]
    );
    assert_eq!(
        kinds("foo_bar_baz"),
        vec![TokenKind::IDENT(String::from("foo_bar_baz")), TokenKind::EOF]
    );
    assert_eq!(
        kinds("h\u{e9}llo w\u{f6}rld"),
        vec![
            TokenKind::IDENT(String::from("h\u{e9}llo")),
            TokenKind::IDENT(String::from("w\u{f6}rld")),
            TokenKind::EOF
        ]
    );
}

#[test]
fn keywords_take_precedence_over_identifiers() {
    assert_eq!(kinds("let"), vec![TokenKind::LET, TokenKind::EOF]);
    assert_eq!(
        kinds("letx"),
        vec![TokenKind::IDENT(String::from("letx")), TokenKind::EOF]
    );
    assert_eq!(
        kinds("Let"),
        vec![TokenKind::IDENT(String::from("Let")), TokenKind::EOF]
    );
    assert_eq!(
        kinds("fn true false if else return"),
        vec![
            TokenKind::FUNCTION,
            TokenKind::TRUE,
            TokenKind::FALSE,
            TokenKind::IF,
            TokenKind::ELSE,
            TokenKind::RETURN,
            TokenKind::EOF
        ]
    );
}

#[test]
fn lookup_ident_knows_the_keyword_table() {
    assert_eq!(lookup_ident("let"), TokenKind::LET);
    assert_eq!(lookup_ident("fn"), TokenKind::FUNCTION);
    assert_eq!(lookup_ident("true"), TokenKind::TRUE);
    assert_eq!(lookup_ident("false"), TokenKind::FALSE);
    assert_eq!(lookup_ident("if"), TokenKind::IF);
    assert_eq!(lookup_ident("else"), TokenKind::ELSE);
    assert_eq!(lookup_ident("return"), TokenKind::RETURN);
    assert_eq!(lookup_ident("letx"), TokenKind::IDENT(String::from("letx")));
    assert_eq!(lookup_ident("le"), TokenKind::IDENT(String::from("le")));
    assert_eq!(lookup_ident(""), TokenKind::IDENT(String::from("")));
    assert_eq!(lookup_ident("RETURN"), TokenKind::IDENT(String::from("RETURN")));
}

#[test]
fn two_character_operators_are_one_token() {
    assert_eq!(kinds("=="), vec![TokenKind::EQ, TokenKind::EOF]);
    assert_eq!(kinds("!="), vec![TokenKind::NEQ, TokenKind::EOF]);
    assert_eq!(kinds("="), vec![TokenKind::ASSIGN, TokenKind::EOF]);
    assert_eq!(
        kinds("=+"),
        vec![TokenKind::ASSIGN, TokenKind::PLUS, TokenKind::EOF]
    );
    assert_eq!(
        kinds("=!"),
        vec![TokenKind::ASSIGN, TokenKind::BANG, TokenKind::EOF]
    );
    assert_eq!(
        kinds("= ="),
        vec![TokenKind::ASSIGN, TokenKind::ASSIGN, TokenKind::EOF]
    );
    assert_eq!(
        kinds("==="),
        vec![TokenKind::EQ, TokenKind::ASSIGN, TokenKind::EOF]
    );
    assert_eq!(
        kinds("!x"),
        vec![
            TokenKind::BANG,
            TokenKind::IDENT(String::from("x")),
            TokenKind::EOF
        ]
    );
}

#[test]
fn exhaustion_is_idempotent() {
    for input in ["", "   \n\t ", "x", "let x = 5;"] {
        let mut l = Lexer::new(input, true, None);
        while l.next_token().ttype != TokenKind::EOF {}
        for _ in 0..10 {
            let tok = l.next_token();
            assert_eq!(tok.ttype, TokenKind::EOF);
            assert_eq!(tok.literal, "");
            assert!(tok.local().is_none());
        }
    }
}

#[test]
fn exhaustion_keeps_its_place() {
    let mut l = Lexer::new("ab\ncd", false, Some("main.my"));
    l.next_token();
    l.next_token();
    let first = l.next_token();
    let second = l.next_token();
    assert_eq!(first.ttype, TokenKind::EOF);
    assert_eq!(second.ttype, TokenKind::EOF);
    assert_eq!(place(&first), (2, 3, String::from("main.my")));
    assert_eq!(place(&second), (2, 3, String::from("main.my")));
}

#[test]
fn unknown_characters_are_illegal_tokens() {
    let mut l = Lexer::new("a # b", true, None);
    l.next_token();
    let tok = l.next_token();
    assert_eq!(tok.ttype, TokenKind::ILLEGAL);
    assert_eq!(tok.literal, "ILLEGAL");
    assert_eq!(l.next_token().ttype, TokenKind::IDENT(String::from("b")));
    assert_eq!(
        kinds("@$\u{0}"),
        vec![
            TokenKind::ILLEGAL,
            TokenKind::ILLEGAL,
            TokenKind::ILLEGAL,
            TokenKind::EOF
        ]
    );
}

#[test]
fn input_is_trimmed_of_all_white_space() {
    assert_eq!(
        kinds("\u{a0}\u{2003} x \u{b}\u{3000}"),
        vec![TokenKind::IDENT(String::from("x")), TokenKind::EOF]
    );
    assert_eq!(
        kinds("x \u{a0} y"),
        vec![
            TokenKind::IDENT(String::from("x")),
            TokenKind::ILLEGAL,
            TokenKind::IDENT(String::from("y")),
            TokenKind::EOF
        ]
    );
    let mut l = Lexer::new("\n\n  x", false, Some("f"));
    assert_eq!(place(&l.next_token()), (1, 1, String::from("f")));
}

#[test]
fn positions_in_a_file() {
    let input = "let five = 5;\nlet ten  = 10;\n\n  x != y";
    let mut l = Lexer::new(input, false, Some("assets/token_file_test.my"));
    let expected = [
        (TokenKind::LET, 1, 1),
        (TokenKind::IDENT(String::from("five")), 1, 5),
        (TokenKind::ASSIGN, 1, 10),
        (TokenKind::INT(5), 1, 12),
        (TokenKind::SEMICOLON, 1, 13),
        (TokenKind::LET, 2, 1),
        (TokenKind::IDENT(String::from("ten")), 2, 5),
        (TokenKind::ASSIGN, 2, 10),
        (TokenKind::INT(10), 2, 12),
        (TokenKind::SEMICOLON, 2, 14),
        (TokenKind::IDENT(String::from("x")), 4, 3),
        (TokenKind::NEQ, 4, 5),
        (TokenKind::IDENT(String::from("y")), 4, 8),
        (TokenKind::EOF, 4, 9),
    ];
    for (kind, row, col) in expected.iter() {
        let tok = l.next_token();
        assert_eq!(tok.ttype, *kind);
        assert_eq!(
            place(&tok),
            (*row, *col, String::from("assets/token_file_test.my"))
        );
    }
}

#[test]
fn column_is_one_more_than_offset_in_line() {
    let line = "let five = 5;";
    let offset = line.find('f').expect("an f");
    let mut l = Lexer::new(line, false, Some("first.my"));
    l.next_token();
    let tok = l.next_token();
    assert_eq!(tok.ttype, TokenKind::IDENT(String::from("five")));
    let (row, col, file) = place(&tok);
    assert_eq!(row, 1);
    assert_eq!(col, 1 + offset);
    assert_eq!(col, 5);
    assert_eq!(file, "first.my");
}

#[test]
fn interactive_tokens_have_no_location() {
    let mut l = Lexer::new("let x", true, Some("ignored"));
    assert!(l.next_token().local().is_none());
    assert!(l.next_token().local().is_none());
    assert!(l.next_token().local().is_none());
}

#[test]
fn location_keeps_its_parts() {
    let location = Location::new(3, 14, "dir/file.my");
    assert_eq!(location.get(), (3, 14, "dir/file.my"));
    let token = Token::new(TokenKind::PLUS, Some(location));
    assert_eq!(token.local().expect("a location").get(), (3, 14, "dir/file.my"));
    assert_eq!(token.clone().local().expect("a location").get(), (3, 14, "dir/file.my"));
}

#[test]
fn default_token_is_the_sentinel() {
    let token = Token::default();
    assert_eq!(token.ttype, TokenKind::EOF);
    assert_eq!(token.literal, "");
    assert!(token.local().is_none());
}

#[test]
fn kinds_have_diagnostic_names() {
    assert_eq!(TokenKind::ILLEGAL.to_string(), "ILLEGAL");
    assert_eq!(TokenKind::EOF.to_string(), "EOF");
    assert_eq!(TokenKind::IDENT(String::from("abc")).to_string(), "IDENT = abc");
    assert_eq!(TokenKind::INT(-12).to_string(), "INT = -12");
    assert_eq!(TokenKind::INT(1000).to_string(), "INT = 1000");
    assert_eq!(TokenKind::ASSIGN.to_string(), "ASSIGN");
    assert_eq!(TokenKind::PLUS.to_string(), "PLUS");
    assert_eq!(TokenKind::MINUS.to_string(), "MINUS");
    assert_eq!(TokenKind::BANG.to_string(), "BANG");
    assert_eq!(TokenKind::ASTERISK.to_string(), "ASTERISK");
    assert_eq!(TokenKind::SLASH.to_string(), "SLASH");
    assert_eq!(TokenKind::LT.to_string(), "LT");
    assert_eq!(TokenKind::GT.to_string(), "GT");
    assert_eq!(TokenKind::EQ.to_string(), "EQ");
    assert_eq!(TokenKind::NEQ.to_string(), "NEQ");
    assert_eq!(TokenKind::COMMA.to_string(), "COMMA");
    assert_eq!(TokenKind::SEMICOLON.to_string(), "SEMICOLON");
    assert_eq!(TokenKind::LPAREN.to_string(), "LPAREN");
    assert_eq!(TokenKind::RPAREN.to_string(), "RPAREN");
    assert_eq!(TokenKind::LBRACE.to_string(), "LBRACE");
    assert_eq!(TokenKind::RBRACE.to_string(), "RBRACE");
    assert_eq!(TokenKind::FUNCTION.to_string(), "FUNCTION");
    assert_eq!(TokenKind::LET.to_string(), "LET");
    assert_eq!(TokenKind::TRUE.to_string(), "TRUE");
    assert_eq!(TokenKind::FALSE.to_string(), "FALSE");
    assert_eq!(TokenKind::IF.to_string(), "IF");
    assert_eq!(TokenKind::ELSE.to_string(), "ELSE");
    assert_eq!(TokenKind::RETURN.to_string(), "RETURN");
}

#[test]
fn kinds_compare_by_tag_and_payload() {
    assert_eq!(TokenKind::INT(5), TokenKind::INT(5));
    assert_ne!(TokenKind::INT(5), TokenKind::INT(6));
    assert_ne!(TokenKind::IDENT(String::from("a")), TokenKind::IDENT(String::from("b")));
    assert_ne!(TokenKind::LT, TokenKind::GT);
    assert_ne!(TokenKind::EQ, TokenKind::ASSIGN);
    assert_eq!(TokenKind::IDENT(String::from("a")).clone(), TokenKind::IDENT(String::from("a")));
}

#[test]
fn largest_integer_is_read() {
    let mut l = Lexer::new("170141183460469231731687303715884105727", true, None);
    let tok = l.next_token();
    assert_eq!(tok.ttype, TokenKind::INT(i128::MAX));
    assert_eq!(tok.literal, "170141183460469231731687303715884105727");
}

#[test]
fn try_new_refuses_what_new_may_not_take() {
    assert!(Lexer::try_new("let x = 5;", true, None).is_some());
    assert!(Lexer::try_new("let x = 5;", false, Some("a.my")).is_some());
    assert!(Lexer::try_new("let x = 5;", false, None).is_none());
    assert!(Lexer::try_new("170141183460469231731687303715884105727", true, None).is_some());
    assert!(Lexer::try_new("170141183460469231731687303715884105728", true, None).is_none());
    assert!(Lexer::try_new("x = 999999999999999999999999999999999999999999;", true, None).is_none());
    assert!(Lexer::try_new("x0000000000000000000000000000000000000000000000001", true, None).is_some());
    let mut l = Lexer::try_new("  fn", true, None).expect("a tokenizer");
    assert_eq!(l.next_token().ttype, TokenKind::FUNCTION);
}

#[test]
fn rendered_integers_read_back() {
    for v in [0i128, 7, 10, 99, 100, 838383, i128::MAX] {
        let literal = Token::new(TokenKind::INT(v), None).literal;
        let mut l = Lexer::new(&literal, true, None);
        let tok = l.next_token();
        assert_eq!(tok.ttype, TokenKind::INT(v));
        assert_eq!(tok.literal, literal);
        assert_eq!(l.next_token().ttype, TokenKind::EOF);
    }
    assert_eq!(
        kinds("-5"),
        vec![TokenKind::MINUS, TokenKind::INT(5), TokenKind::EOF]
    );
}

#[test]
fn newline_resets_the_column() {
    let mut l = Lexer::new("a\n\nb c\r\n\td", false, Some("p"));
    assert_eq!(place(&l.next_token()), (1, 1, String::from("p")));
    assert_eq!(place(&l.next_token()), (3, 1, String::from("p")));
    assert_eq!(place(&l.next_token()), (3, 3, String::from("p")));
    assert_eq!(place(&l.next_token()), (4, 2, String::from("p")));
    assert_eq!(place(&l.next_token()), (4, 3, String::from("p")));
}
