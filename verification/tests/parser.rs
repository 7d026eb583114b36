use monkey_front::ast;
use monkey_front::lexer::Lexer;
use monkey_front::parser::Parser;
use monkey_front::token::{Token, TokenKind};

#[test]
fn test_let_statements() {
    let input = "let x = 5;\n\
    let y = 10;\n\
    let foobar = 838383;";

    let l = Lexer::new(input, true, None);
    let mut p = Parser::new(l);

    let program = p.parse_program();

    for e in p.errors().iter() {
        println!("{}", e);
    }

    assert_eq!(p.errors().len(), 0);

    assert!(program != None);

    assert_eq!(
        &program
            .as_ref()
            .expect("Program should be Some here")
            .statements
            .len(),
        &3
    );

    let expected_identifiers: [&str; 3] = ["x", "y", "foobar"];

    let check_let_statement = |stmt: &ast::Statement, expected_name: &str| match stmt {
        ast::Statement::Let(i) => {
            assert_eq!(
                i.name().expect("couldn't get the name").value(),
                expected_name
            )
        }
        _ => panic!("expected let statement but got something else"),
    };

    for (stmt, name) in program
        .expect("Program should be Some here")
        .statements
        .iter()
        .zip(expected_identifiers.iter())
    {
        check_let_statement(stmt, name)
    }
}

#[test]
fn test_return_statements() {
    let input = "return 5;\n\
    return 10;\n\
    return 993322;";

    let l = Lexer::new(input, true, None);
    let mut p = Parser::new(l);

    let program = p.parse_program();

    for e in p.errors().iter() {
        println!("{}", e);
    }

    assert_eq!(p.errors().len(), 0);

    assert!(program != None);

    assert_eq!(
        &program
            .as_ref()
            .expect("Program should be Some here")
            .statements
            .len(),
        &3
    );

    let check_return_statement = |stmt: &ast::Statement| match stmt {
        ast::Statement::Return(i) => {
            assert_eq!(i.token_literal(), "RETURN")
        }
        _ => panic!("expected return statement but got something else"),
    };

    for stmt in program
        .expect("Program should be Some here")
        .statements
        .iter()
    {
        check_return_statement(stmt)
    }
}

fn parse(input: &str) -> (ast::Program, Vec<String>) {
    let mut p = Parser::new(Lexer::new(input, true, None));
    let program = p.parse_program().expect("a program");
    (program, p.errors().to_vec())
}

fn let_name(stmt: &ast::Statement) -> String {
    match stmt {
        ast::Statement::Let(i) => {
            assert!(i.value().is_none());
            assert_eq!(i.token().ttype, TokenKind::LET);
            assert_eq!(i.token().literal, "LET");
            let name = i.name().expect("a name");
            assert_eq!(*name.value(), name.token().literal);
            assert_eq!(name.token().ttype, TokenKind::IDENT(name.value().clone()));
            name.value().clone()
        }
        _ => panic!("expected let statement but got something else"),
    }
}

#[test]
fn errors_accumulate_and_parsing_goes_on() {
    let (program, errors) = parse("let x 5; let y = 10;");
    assert_eq!(program.statements.len(), 1);
    assert_eq!(let_name(&program.statements[0]), "y");
    assert_eq!(
        errors,
        vec![String::from(
            "expected next token to be ASSIGN, got INT = 5 instead"
        )]
    );
}

#[test]
fn three_let_statements_in_order() {
    let (program, errors) =
        parse("let five = 5;\nlet ten = 10;\nlet add = fn(x, y) { x + y; };");
    assert_eq!(errors.len(), 0);
    assert_eq!(program.statements.len(), 3);
    let names: Vec<String> = program.statements.iter().map(let_name).collect();
    assert_eq!(names, vec!["five", "ten", "add"]);
}

#[test]
fn two_return_statements() {
    let (program, errors) = parse("return 5;\nreturn 10;");
    assert_eq!(errors.len(), 0);
    assert_eq!(program.statements.len(), 2);
    for stmt in program.statements.iter() {
        match stmt {
            ast::Statement::Return(i) => assert_eq!(i.token_literal(), "RETURN"),
            _ => panic!("expected return statement but got something else"),
        }
    }
}

#[test]
fn empty_input_is_an_empty_program() {
    for input in ["", "  \n ", ";;;", "x + y;", "5"] {
        let (program, errors) = parse(input);
        assert_eq!(program.statements.len(), 0);
        assert_eq!(errors.len(), 0);
    }
}

#[test]
fn missing_identifier_is_reported() {
    let (program, errors) = parse("let = 5; let 7; let");
    assert_eq!(program.statements.len(), 0);
    assert_eq!(
        errors,
        vec![
            String::from("expected next token to be IDENT = /*something*/, got ASSIGN instead"),
            String::from("expected next token to be IDENT = /*something*/, got INT = 7 instead"),
            String::from("expected next token to be IDENT = /*something*/, got EOF instead"),
        ]
    );
}

#[test]
fn missing_assign_is_reported_with_what_was_found() {
    let (_, errors) = parse("let a b; let c; let d");
    assert_eq!(
        errors,
        vec![
            String::from("expected next token to be ASSIGN, got IDENT = b instead"),
            String::from("expected next token to be ASSIGN, got SEMICOLON instead"),
            String::from("expected next token to be ASSIGN, got EOF instead"),
        ]
    );
}

#[test]
fn a_failed_let_resumes_at_the_token_after_the_window() {
    let (program, errors) = parse("let let x = 1; let x let y = 2;");
    assert_eq!(errors.len(), 2);
    assert_eq!(program.statements.len(), 2);
    assert_eq!(let_name(&program.statements[0]), "x");
    assert_eq!(let_name(&program.statements[1]), "y");
}

#[test]
fn statements_without_a_semicolon_end_with_the_input() {
    let (program, errors) = parse("let x = 5");
    assert_eq!(errors.len(), 0);
    assert_eq!(program.statements.len(), 1);
    assert_eq!(let_name(&program.statements[0]), "x");
    let (program, errors) = parse("return");
    assert_eq!(errors.len(), 0);
    assert_eq!(program.statements.len(), 1);
    let (program, errors) = parse("return 1 let x = 2; let y = 3;");
    assert_eq!(errors.len(), 0);
    assert_eq!(program.statements.len(), 2);
    assert!(matches!(program.statements[0], ast::Statement::Return(_)));
    assert_eq!(let_name(&program.statements[1]), "y");
}

#[test]
fn mixed_statements_keep_their_order() {
    let (program, errors) = parse("let a = 1; return a; foo; let b = a; return;");
    assert_eq!(errors.len(), 0);
    assert_eq!(program.statements.len(), 4);
    assert_eq!(let_name(&program.statements[0]), "a");
    assert!(matches!(program.statements[1], ast::Statement::Return(_)));
    assert_eq!(let_name(&program.statements[2]), "b");
    assert!(matches!(program.statements[3], ast::Statement::Return(_)));
}

#[test]
fn illegal_tokens_are_passed_over() {
    let (program, errors) = parse("# let x = @; $ return 1;");
    assert_eq!(errors.len(), 0);
    assert_eq!(program.statements.len(), 2);
    assert_eq!(let_name(&program.statements[0]), "x");
}

#[test]
fn parsing_twice_adds_nothing() {
    let mut p = Parser::new(Lexer::new("let x 5; let y = 10;", true, None));
    let first = p.parse_program().expect("a program");
    assert_eq!(first.statements.len(), 1);
    assert_eq!(p.errors().len(), 1);
    let second = p.parse_program().expect("a program");
    assert_eq!(second.statements.len(), 0);
    assert_eq!(p.errors().len(), 1);
}

#[test]
fn file_backed_statements_carry_locations() {
    let mut p = Parser::new(Lexer::new("let a = 1;\n  return a;", false, Some("m.my")));
    let program = p.parse_program().expect("a program");
    assert_eq!(p.errors().len(), 0);
    match &program.statements[0] {
        ast::Statement::Let(i) => {
            assert_eq!(i.token().local().expect("a location").get(), (1, 1, "m.my"));
            let name = i.name().expect("a name");
            assert_eq!(name.token().local().expect("a location").get(), (1, 5, "m.my"));
        }
        _ => panic!("expected let statement but got something else"),
    }
}

#[test]
fn programs_show_their_let_statements() {
    let (program, _) = parse("let x = 5; return 1; let y = 10;");
    assert_eq!(program.to_string(), "let x = let y = ");
    assert_eq!(ast::Program::new().to_string(), "");
    assert_eq!(ast::Program::default().statements.len(), 0);
}

#[test]
fn programs_are_equal_when_their_lets_bind_the_same_names() {
    let (a, _) = parse("let x = 5; let y = 10;");
    let (b, _) = parse("let x = 7; let y = 8; let z = 9;");
    let (c, _) = parse("let x = 5; let z = 10;");
    let (d, _) = parse("let x = 5; return 10;");
    assert!(a == b);
    assert!(b == a);
    assert!(a != c);
    assert!(a == d);
    assert!(a == ast::Program::new());
}

#[test]
fn nodes_are_built_from_their_parts() {
    let token = Token::new(TokenKind::IDENT(String::from("n")), None);
    let id = ast::Identifier::new(token, String::from("n"));
    assert_eq!(id.value(), "n");
    assert_eq!(id.token().literal, "n");

    let mut stmt = ast::LetInternal::new(Token::new(TokenKind::LET, None), None, None);
    assert!(stmt.name().is_none());
    assert!(stmt.value().is_none());
    assert_eq!(stmt.token().ttype, TokenKind::LET);
    stmt.change_name(id);
    assert_eq!(stmt.name().expect("a name").value(), "n");
    let nameless = ast::Program {
        statements: vec![ast::Statement::Let(ast::LetInternal::new(
            Token::new(TokenKind::LET, None),
            None,
            None,
        ))],
    };
    assert_eq!(nameless.to_string(), "let  = ");
    let named = ast::Program { statements: vec![ast::Statement::Let(stmt)] };
    assert_eq!(named.to_string(), "let n = ");
    assert!(named != nameless);

    let ret = ast::ReturnInternal::init(Token::new(TokenKind::RETURN, None), None);
    assert_eq!(ret.token_literal(), "RETURN");
    let expr = ast::ExpressionInternal::init(Token::new(TokenKind::INT(5), None), None);
    assert_eq!(expr.token_literal(), "5");
}

struct Literal {
    text: String,
}

impl ast::Node for Literal {
    fn token_literal(&self) -> String {
        self.text.clone()
    }
}

impl ast::Expression for Literal {
    fn token_literal(&self) -> String {
        self.text.clone()
    }

    fn expression_node(&self) {}
}

#[test]
fn expressions_can_be_attached() {
    let value: Box<dyn ast::Expression> = Box::new(Literal { text: String::from("5") });
    let stmt = ast::LetInternal::new(Token::new(TokenKind::LET, None), None, Some(value));
    assert_eq!(stmt.value().expect("a value").token_literal(), "5");
    assert_eq!(ast::Node::token_literal(&Literal { text: String::from("7") }), "7");
}
